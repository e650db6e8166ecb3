//! Word-joining helpers for mnemonic phrases.

use vstd::prelude::*;

verus! {

/// Number of space characters in a sequence.
pub open spec fn space_count(s: Seq<char>) -> nat
    decreases s.len(),
{
    if s.len() == 0 {
        0
    } else {
        (space_count(s.drop_last()) + (if s.last() == ' ' {
            1nat
        } else {
            0nat
        })) as nat
    }
}

/// Nonempty, no leading or trailing space, and no two spaces in a row: the
/// shape of a phrase whose words are recovered by splitting on single spaces.
pub open spec fn single_spaced(s: Seq<char>) -> bool {
    &&& s.len() > 0
    &&& s[0] != ' '
    &&& s[s.len() - 1] != ' '
    &&& forall|i: int| 0 <= i < s.len() - 1 ==> !(#[trigger] s[i] == ' ' && s[i + 1] == ' ')
}

/// The words joined by single spaces.
pub open spec fn join_spaces(words: Seq<Seq<char>>) -> Seq<char>
    decreases words.len(),
{
    if words.len() == 0 {
        Seq::empty()
    } else if words.len() == 1 {
        words[0]
    } else {
        join_spaces(words.drop_last()) + seq![' '] + words.last()
    }
}

/// Join a list of words with single spaces.
pub fn join_words(words: &Vec<String>) -> (r: String)
    ensures
        r@ == join_spaces(words.deep_view()),
{
    let mut out = String::new();
    let mut i: usize = 0;
    while i < words.len()
        invariant
            i <= words.len(),
            out@ == join_spaces(words.deep_view().take(i as int)),
        decreases words.len() - i,
    {
        if i > 0 {
            out.append(" ");
        }
        out.append(words[i].as_str());
        i = i + 1;
        proof {
            reveal_strlit(" ");
            let w = words.deep_view();
            assert(w.take(i as int).drop_last() =~= w.take(i as int - 1));
            assert(w.take(i as int).last() == w[i as int - 1]);
            assert(w[i - 1] == words@[i - 1]@);
            if i == 1 {
                assert(out@ =~= join_spaces(w.take(1)));
            } else {
                assert(out@ =~= join_spaces(w.take(i as int - 1)) + seq![' '] + w[i as int - 1]);
            }
        }
    }
    proof {
        assert(words.deep_view().take(words@.len() as int) =~= words.deep_view());
    }
    out
}

} // verus!
