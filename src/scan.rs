use vstd::prelude::*;
use vstd::string::*;

verus! {

/// The prefix that marks a directory entry as an input event node.
pub open spec fn event_prefix() -> Seq<char> {
    seq!['e', 'v', 'e', 'n', 't']
}

/// An entry is a candidate exactly when its file name starts with `event`.
pub open spec fn has_event_prefix(name: Seq<char>) -> bool {
    name.len() >= 5 && name.take(5) == event_prefix()
}

/// The path of entry `name` under the directory `root`.
pub open spec fn candidate_path(root: Seq<char>, name: Seq<char>) -> Seq<char> {
    root + seq!['/'] + name
}

/// The character sequences of a sequence of strings.
pub open spec fn views(v: Seq<String>) -> Seq<Seq<char>> {
    v.map_values(|s: String| s@)
}

/// The candidate paths of a directory listing, in listing order: the path of
/// each entry whose name has the event prefix.
pub open spec fn candidates_of(root: Seq<char>, names: Seq<Seq<char>>) -> Seq<Seq<char>>
    decreases names.len(),
{
    if names.len() == 0 {
        Seq::empty()
    } else {
        let prev = candidates_of(root, names.drop_last());
        if has_event_prefix(names.last()) {
            prev.push(candidate_path(root, names.last()))
        } else {
            prev
        }
    }
}

/// Whether a directory entry's file name marks it as an input event node.
pub fn is_candidate_name(name: &str) -> (r: bool)
    ensures
        r == has_event_prefix(name@),
{
    let n = name.unicode_len();
    if n < 5 {
        return false;
    }
    let c0 = name.get_char(0);
    let c1 = name.get_char(1);
    let c2 = name.get_char(2);
    let c3 = name.get_char(3);
    let c4 = name.get_char(4);
    proof {
        assert(name@.take(5) =~= seq![c0, c1, c2, c3, c4]);
    }
    c0 == 'e' && c1 == 'v' && c2 == 'e' && c3 == 'n' && c4 == 't'
}

/// The path of entry `name` under the directory `root`.
pub fn join_path(root: &str, name: &str) -> (r: String)
    ensures
        r@ == candidate_path(root@, name@),
{
    let mut path = root.to_owned();
    proof { reveal_strlit("/"); }
    path.append("/");
    path.append(name);
    path
}


/// The candidate paths of a directory listing: for each entry whose name starts
/// with `event`, in listing order, its path under `root`. A directory that could
/// not be listed (`None`) gives no candidates.
pub fn list_candidates(root: &str, entries: Option<Vec<String>>) -> (r: Vec<String>)
    ensures
        match entries {
            Some(names) => views(r@) == candidates_of(root@, views(names@)),
            None => r@.len() == 0,
        },
{
    let mut out: Vec<String> = Vec::new();
    match entries {
        None => out,
        Some(names) => {
            let ghost all = views(names@);
            let mut i: usize = 0;
            while i < names.len()
                invariant
                    i <= names.len(),
                    all == views(names@),
                    views(out@) == candidates_of(root@, all.take(i as int)),
                decreases names.len() - i,
            {
                let name = &names[i];
                proof {
                    assert(all.take(i + 1).drop_last() =~= all.take(i as int));
                    assert(all.take(i + 1).last() == name@);
                }
                if is_candidate_name(name.as_str()) {
                    let path = join_path(root, name.as_str());
                    let ghost before = out@;
                    out.push(path);
                    proof {
                        assert(views(out@) =~= views(before).push(path@));
                    }
                }
                i = i + 1;
            }
            proof {
                assert(all.take(names.len() as int) =~= all);
            }
            out
        },
    }
}


/// Every candidate path is the path of an event entry of the listing; every
/// event entry's path is a candidate; and no entry without the event prefix
/// has its path among the candidates, whatever kind of file it is.
pub proof fn lemma_candidates_are_event_entries(root: Seq<char>, names: Seq<Seq<char>>)
    ensures
        forall|i: int| 0 <= i < candidates_of(root, names).len() ==> exists|j: int|
            0 <= j < names.len() && has_event_prefix(#[trigger] names[j])
                && #[trigger] candidates_of(root, names)[i] == candidate_path(root, names[j]),
        forall|j: int| 0 <= j < names.len() && has_event_prefix(#[trigger] names[j])
            ==> candidates_of(root, names).contains(candidate_path(root, names[j])),
        forall|j: int| 0 <= j < names.len() && !has_event_prefix(#[trigger] names[j])
            ==> !candidates_of(root, names).contains(candidate_path(root, names[j])),
    decreases names.len(),
{
    let c = candidates_of(root, names);
    if names.len() > 0 {
        let prev = names.drop_last();
        lemma_candidates_are_event_entries(root, prev);
        let pc = candidates_of(root, prev);
        assert forall|i: int| 0 <= i < c.len() implies exists|j: int|
            0 <= j < names.len() && has_event_prefix(#[trigger] names[j])
                && #[trigger] c[i] == candidate_path(root, names[j]) by {
            if i < pc.len() {
                let j = choose|j: int| 0 <= j < prev.len() && has_event_prefix(#[trigger] prev[j])
                    && pc[i] == candidate_path(root, prev[j]);
                assert(names[j] == prev[j]);
            } else {
                assert(names[names.len() - 1] == names.last());
            }
        }
        assert forall|j: int| 0 <= j < names.len() && has_event_prefix(#[trigger] names[j])
            implies c.contains(candidate_path(root, names[j])) by {
            if j < prev.len() {
                assert(prev[j] == names[j]);
                let k = choose|k: int| 0 <= k < pc.len() && pc[k] == candidate_path(root, prev[j]);
                assert(c[k] == pc[k]);
            } else {
                assert(c[c.len() - 1] == candidate_path(root, names[j]));
            }
        }
        assert forall|j: int| 0 <= j < names.len() && !has_event_prefix(#[trigger] names[j])
            implies !c.contains(candidate_path(root, names[j])) by {
            if c.contains(candidate_path(root, names[j])) {
                let k = choose|k: int| 0 <= k < c.len() && c[k] == candidate_path(root, names[j]);
                let m = choose|m: int| 0 <= m < names.len() && has_event_prefix(#[trigger] names[m])
                    && c[k] == candidate_path(root, names[m]);
                lemma_candidate_path_injective(root, names[j], names[m]);
            }
        }
    }
}

/// Distinct entry names give distinct paths under one directory.
pub proof fn lemma_candidate_path_injective(root: Seq<char>, a: Seq<char>, b: Seq<char>)
    requires
        candidate_path(root, a) == candidate_path(root, b),
    ensures
        a == b,
{
    let n: int = root.len() as int + 1;
    assert(candidate_path(root, a).subrange(n, candidate_path(root, a).len() as int) =~= a);
    assert(candidate_path(root, b).subrange(n, candidate_path(root, b).len() as int) =~= b);
}

} // verus!
