//! The icon names a step can use, read from the bundled list of icon names,
//! one per line.

use vstd::prelude::*;
use crate::probe::strings_view;
use crate::text::{
    chars_of, contains, contains_of, eq_of, lines, lines_of, string_of, to_lowercase, unicode_lower, views,
};

verus! {

/// How many matches the icon browser shows.
pub const MAX_RESULTS: usize = 60;

/// A name is a known icon when some line of the list is exactly that name.
pub fn is_known_icon(icon_names: &str, name: &str) -> (b: bool)
    ensures
        b == lines(icon_names@).contains(name@),
{
    let ls = lines_of(&chars_of(icon_names));
    let want = chars_of(name);
    let ghost lv = lines(icon_names@);
    let mut i: usize = 0;
    while i < ls.len()
        invariant
            0 <= i <= ls@.len(),
            views(ls@) == lv,
            lv == lines(icon_names@),
            want@ == name@,
            forall|j: int| 0 <= j < i ==> lv[j] != name@,
        decreases ls.len() - i,
    {
        if eq_of(&ls[i], &want) {
            proof {
                assert(i < lv.len() && lv[i as int] == name@);
                assert(lv.contains(name@));
            }
            return true;
        }
        i += 1;
    }
    proof {
        if lv.contains(name@) {
            let j = choose|j: int| 0 <= j < lv.len() && lv[j] == name@;
            assert(lv[j] != name@);
        }
    }
    false
}

/// The names that contain `query` (any name when it is empty), in list order.
pub open spec fn matching(names: Seq<Seq<char>>, query: Seq<char>) -> Seq<Seq<char>>
    decreases names.len(),
{
    if names.len() == 0 {
        seq![]
    } else if query.len() == 0 || contains(names.last(), query) {
        matching(names.drop_last(), query).push(names.last())
    } else {
        matching(names.drop_last(), query)
    }
}

/// At most the first `MAX_RESULTS` names.
pub open spec fn first_results(m: Seq<Seq<char>>) -> Seq<Seq<char>> {
    if m.len() <= MAX_RESULTS {
        m
    } else {
        m.take(MAX_RESULTS as int)
    }
}

/// What the icon browser lists for a query: the names containing the query,
/// folded to lowercase, at most `MAX_RESULTS` of them.
pub open spec fn browse_spec(icon_names: Seq<char>, query: Seq<char>) -> Seq<Seq<char>> {
    first_results(matching(lines(icon_names), unicode_lower(query)))
}

/// The icon names offered for a query typed into the browser.
pub fn browse(icon_names: &str, query: &str) -> (r: Vec<String>)
    ensures
        strings_view(r@) == browse_spec(icon_names@, query@),
{
    let ls = lines_of(&chars_of(icon_names));
    let q = chars_of(to_lowercase(query).as_str());
    let ghost lv = lines(icon_names@);
    let mut r: Vec<String> = Vec::new();
    let mut i: usize = 0;
    proof {
        assert(lv.take(0) =~= Seq::<Seq<char>>::empty());
        assert(strings_view(r@) =~= first_results(matching(lv.take(0), q@)));
    }
    while i < ls.len()
        invariant
            0 <= i <= ls@.len(),
            views(ls@) == lv,
            lv == lines(icon_names@),
            q@ == unicode_lower(query@),
            strings_view(r@) == first_results(matching(lv.take(i as int), q@)),
        decreases ls.len() - i,
    {
        let ghost before = matching(lv.take(i as int), q@);
        proof {
            assert(lv.take(i + 1).drop_last() =~= lv.take(i as int));
            assert(lv.take(i + 1).last() == lv[i as int]);
            assert(ls@[i as int]@ == lv[i as int]);
        }
        if q.len() == 0 || contains_of(&ls[i], &q) {
            if r.len() < MAX_RESULTS {
                let ghost r0 = r@;
                proof {
                    assert(strings_view(r0).len() == r0.len());
                }
                let name = string_of(ls[i].as_slice());
                r.push(name);
                proof {
                    assert(before.len() < MAX_RESULTS);
                    assert(strings_view(r@) =~= strings_view(r0).push(lv[i as int]));
                    assert(strings_view(r@) =~= first_results(before.push(lv[i as int])));
                }
            } else {
                proof {
                    assert(first_results(before.push(lv[i as int])) =~= first_results(before));
                }
            }
        }
        i += 1;
    }
    proof {
        assert(lv.take(i as int) =~= lv);
    }
    r
}

} // verus!
