//! Ordered search terms tried for a target name, from the exact name to the
//! most speculative guess.

use vstd::prelude::*;
use crate::text::{white_space, has_white_space, is_white_space, chars_of, joined};
use crate::planner::texts;

verus! {

/// The search terms for `n`, in the order they are tried. The two last ones
/// are only tried for a name without white space.
pub open spec fn variations_of(n: Seq<char>) -> Seq<Seq<char>> {
    terms_for(n, has_white_space(n))
}

/// The search terms for `n`, given whether it holds white space.
pub open spec fn terms_for(n: Seq<char>, spaced: bool) -> Seq<Seq<char>> {
    let common = seq![
        n,
        n + " band"@,
        n + " music"@,
        n + " official"@,
        n + " channel"@,
        n + "VEVO"@,
        n + " VEVO"@,
        n + " - Topic"@,
        n + "Topic"@,
    ];
    if spaced {
        common
    } else {
        common + seq![n + "band"@, "The "@ + n]
    }
}

/// Whether some character of `s` is white space.
pub fn text_has_white_space(s: &str) -> (r: bool)
    ensures
        r == has_white_space(s@),
{
    let cs = chars_of(s);
    for i in 0..cs.len()
        invariant
            cs@ == s@,
            forall|k: int| 0 <= k < i ==> !white_space(#[trigger] cs@[k]),
    {
        if is_white_space(cs[i]) {
            return true;
        }
    }
    false
}

proof fn lemma_vevo_is_not_the(n: Seq<char>)
    ensures
        n + "VEVO"@ != "The "@ + n,
    decreases n.len(),
{
    reveal_strlit("VEVO");
    reveal_strlit("The ");
    let a = n + "VEVO"@;
    let b = "The "@ + n;
    if a == b {
        if n.len() < 4 {
            assert(a[n.len() as int] == 'V');
            assert(b[n.len() as int] == "The "@[n.len() as int]);
        } else {
            let m = n.subrange(0, n.len() - 4);
            assert(n.subrange(n.len() - 4, n.len() as int) =~= "VEVO"@) by {
                assert forall|k: int| 0 <= k < 4 implies n.subrange(
                    n.len() - 4,
                    n.len() as int,
                )[k] == "VEVO"@[k] by {
                    assert(a[n.len() + k] == b[n.len() + k]);
                }
            }
            assert(n =~= m + "VEVO"@);
            assert(m + "VEVO"@ =~= "The "@ + m) by {
                assert(a.subrange(0, a.len() - 4) =~= m + "VEVO"@);
                assert(b.subrange(0, b.len() - 4) =~= "The "@ + m);
            }
            lemma_vevo_is_not_the(m);
        }
    }
}

/// The search terms for `name`, given whether it holds white space.
pub fn variations_for(name: &str, spaced: bool) -> (r: Vec<String>)
    ensures
        texts(r@) == terms_for(name@, spaced),
        !spaced ==> texts(r@).contains(name@ + "band"@) && texts(r@).contains("The "@ + name@),
        spaced ==> !texts(r@).contains("The "@ + name@),
{
    let mut v: Vec<String> = Vec::new();
    v.push(String::from_str(name));
    v.push(joined(name, " band"));
    v.push(joined(name, " music"));
    v.push(joined(name, " official"));
    v.push(joined(name, " channel"));
    v.push(joined(name, "VEVO"));
    v.push(joined(name, " VEVO"));
    v.push(joined(name, " - Topic"));
    v.push(joined(name, "Topic"));
    if !spaced {
        v.push(joined(name, "band"));
        v.push(joined("The ", name));
    }
    proof {
        let n = name@;
        assert(texts(v@) =~= terms_for(n, spaced));
        if !spaced {
            assert(texts(v@)[9] == n + "band"@);
            assert(texts(v@)[10] == "The "@ + n);
        } else {
            reveal_strlit(" band");
            reveal_strlit(" music");
            reveal_strlit(" official");
            reveal_strlit(" channel");
            reveal_strlit("VEVO");
            reveal_strlit(" VEVO");
            reveal_strlit(" - Topic");
            reveal_strlit("Topic");
            reveal_strlit("The ");
            lemma_vevo_is_not_the(n);
            let t = "The "@ + n;
            assert forall|k: int| 0 <= k < texts(v@).len() implies texts(v@)[k] != t by {
                if k != 5 {
                    assert(texts(v@)[k].len() != t.len());
                }
            }
        }
    }
    v
}

/// The search terms for `name`, in the order they are tried.
pub fn search_variations(name: &str) -> (r: Vec<String>)
    ensures
        texts(r@) == variations_of(name@),
        !has_white_space(name@) ==> texts(r@).contains(name@ + "band"@) && texts(r@).contains(
            "The "@ + name@,
        ),
        has_white_space(name@) ==> !texts(r@).contains("The "@ + name@),
{
    variations_for(name, text_has_white_space(name))
}

} // verus!
