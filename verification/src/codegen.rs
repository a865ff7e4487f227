//! A partial code-generation backend targeting Forth source text. Only
//! string literals, `Print` and comments are handled; the rest of the
//! token set is outside this backend's scope.

use crate::parser::{Token, TokenModel, tokens_model};
use vstd::prelude::*;

verus! {

/// The token kinds the backend handles.
pub open spec fn gen_handles(t: TokenModel) -> bool {
    t is Str || t is Print || t is Comment
}

/// The Forth text for one handled token: a string literal becomes an
/// `s" ..."` literal, `Print` the word `print`, a comment nothing.
pub open spec fn gen_token(t: TokenModel) -> Seq<char> {
    match t {
        TokenModel::Str(s) => seq!['s', '"', ' '] + s + seq!['"', ' '],
        TokenModel::Print => seq!['p', 'r', 'i', 'n', 't'],
        _ => Seq::<char>::empty(),
    }
}

/// The Forth text for a token sequence: each token's text in order.
pub open spec fn gen_tokens(ts: Seq<TokenModel>) -> Seq<char>
    decreases ts.len(),
{
    if ts.len() == 0 {
        Seq::<char>::empty()
    } else {
        gen_tokens(ts.drop_last()) + gen_token(ts.last())
    }
}

pub struct ForthCodegen;

impl ForthCodegen {
    /// Emits Forth source text for a token sequence of handled kinds.
    pub fn gen(tokens: Vec<Token>) -> (r: String)
        requires
            forall|k: int| 0 <= k < tokens@.len() ==> #[trigger] gen_handles(tokens@[k]@),
        ensures
            r@ == gen_tokens(tokens_model(tokens@)),
    {
        let mut ret = String::new();
        let mut i: usize = 0;
        proof {
            assert(ret@ =~= gen_tokens(tokens_model(tokens@).take(0)));
        }
        while i < tokens.len()
            invariant
                i <= tokens@.len(),
                forall|k: int| 0 <= k < tokens@.len() ==> #[trigger] gen_handles(tokens@[k]@),
                ret@ == gen_tokens(tokens_model(tokens@).take(i as int)),
            decreases tokens@.len() - i,
        {
            let ghost t = tokens@[i as int]@;
            let tok = &tokens[i];
            match tok {
                Token::Str(data) => {
                    ret.append("s\" ");
                    ret.append(data.as_str());
                    ret.append("\" ");
                    proof {
                        reveal_strlit("s\" ");
                        reveal_strlit("\" ");
                        assert("s\" "@ =~= seq!['s', '"', ' ']);
                        assert("\" "@ =~= seq!['"', ' ']);
                    }
                },
                Token::Print => {
                    ret.append("print");
                    proof {
                        reveal_strlit("print");
                        assert("print"@ =~= seq!['p', 'r', 'i', 'n', 't']);
                    }
                },
                Token::Comment(_) => {
                    proof {
                        assert(ret@ + gen_token(t) =~= ret@);
                    }
                },
                _ => {
                    // excluded by this backend's scope
                    proof {
                        assert(gen_handles(tokens@[i as int]@));
                        assert(false);
                    }
                },
            }
            proof {
                assert(tokens_model(tokens@).take(i as int + 1).drop_last() =~= tokens_model(
                    tokens@,
                ).take(i as int));
                assert(tokens_model(tokens@).take(i as int + 1).last() == t);
            }
            i = i + 1;
        }
        proof {
            assert(tokens_model(tokens@).take(tokens@.len() as int) =~= tokens_model(tokens@));
        }
        ret
    }
}

} // verus!
