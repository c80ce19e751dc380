//! The detokenizer: emitted token ids back to text.

use vstd::prelude::*;

use crate::text::normalize_ws;
use crate::text::normalize_ws_bytes;
use crate::vocab::Vocabulary;

verus! {

/// The texts of `tokens` under `m`, concatenated in order; an id the mapping
/// lacks contributes nothing.
pub open spec fn concat_tokens(m: Map<i64, Seq<u8>>, tokens: Seq<i64>) -> Seq<u8>
    decreases tokens.len(),
{
    if tokens.len() == 0 {
        Seq::empty()
    } else {
        concat_tokens(m, tokens.drop_last()) + (if m.dom().contains(tokens.last()) {
            m[tokens.last()]
        } else {
            Seq::<u8>::empty()
        })
    }
}

/// The rendered transcript: token texts concatenated in order, then
/// whitespace trimmed at the ends and collapsed inside.
pub open spec fn detok_spec(m: Map<i64, Seq<u8>>, tokens: Seq<i64>) -> Seq<u8> {
    normalize_ws(concat_tokens(m, tokens))
}

/// Render `tokens` through `vocab` into transcript bytes.
pub fn detokenize(vocab: &Vocabulary, tokens: &Vec<i64>) -> (r: Vec<u8>)
    requires
        vocab.wf(),
    ensures
        r@ == detok_spec(vocab.map_view(), tokens@),
{
    let mut joined: Vec<u8> = Vec::new();
    let mut i: usize = 0;
    proof {
        assert(tokens@.take(0) =~= Seq::<i64>::empty());
    }
    while i < tokens.len()
        invariant
            i <= tokens@.len(),
            vocab.wf(),
            joined@ == concat_tokens(vocab.map_view(), tokens@.take(i as int)),
        decreases tokens@.len() - i,
    {
        let ghost before = joined@;
        proof {
            assert(tokens@.take(i as int + 1).drop_last() =~= tokens@.take(i as int));
            assert(tokens@.take(i as int + 1).last() == tokens@[i as int]);
        }
        match vocab.get_token(tokens[i]) {
            Some(text) => {
                let mut k: usize = 0;
                let n = text.len();
                while k < n
                    invariant
                        k <= n,
                        n == text@.len(),
                        joined@ == before + text@.take(k as int),
                    decreases n - k,
                {
                    proof {
                        assert(text@.take(k as int + 1).drop_last() =~= text@.take(k as int));
                        assert((before + text@.take(k as int)).push(text@[k as int]) =~= before
                            + text@.take(k as int + 1));
                    }
                    joined.push(text[k]);
                    k = k + 1;
                }
                proof {
                    assert(text@.take(text@.len() as int) =~= text@);
                }
            },
            None => {
                proof {
                    assert(before + Seq::<u8>::empty() =~= before);
                }
            },
        }
        i = i + 1;
    }
    proof {
        assert(tokens@.take(tokens@.len() as int) =~= tokens@);
    }
    normalize_ws_bytes(&joined)
}

} // verus!
