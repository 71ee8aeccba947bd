//! A list of named workspaces with their windows, and the map it stands for.
use vstd::prelude::*;
use crate::window::Window;

verus! {

/// No two entries share a name.
pub open spec fn names_unique(ws: Seq<(String, Vec<Window>)>) -> bool {
    forall|i: int, j: int| 0 <= i < j < ws.len() ==> ws[i].0@ != ws[j].0@
}

/// Some entry of `ws` is named `x`.
pub open spec fn names(ws: Seq<(String, Vec<Window>)>, x: Seq<char>) -> bool {
    exists|i: int| 0 <= i < ws.len() && (#[trigger] ws[i]).0@ == x
}

/// The map from workspace name to windows that a list with unique names
/// stands for.
pub open spec fn entries_map(ws: Seq<(String, Vec<Window>)>) -> Map<Seq<char>, Seq<Window>> {
    Map::new(
        |x: Seq<char>| names(ws, x),
        |x: Seq<char>| ws[choose|i: int| 0 <= i < ws.len() && (#[trigger] ws[i]).0@ == x].1@,
    )
}

/// In a list with unique names, the entry at `i` gives the value at its name.
pub proof fn lemma_entries_map_at(ws: Seq<(String, Vec<Window>)>, i: int)
    requires
        names_unique(ws),
        0 <= i < ws.len(),
    ensures
        entries_map(ws).dom().contains(ws[i].0@),
        entries_map(ws)[ws[i].0@] == ws[i].1@,
{
    let x = ws[i].0@;
    assert(names(ws, x));
    let j = choose|j: int| 0 <= j < ws.len() && (#[trigger] ws[j]).0@ == x;
    if j != i {
        if j < i {
            assert(ws[j].0@ != ws[i].0@);
        } else {
            assert(ws[i].0@ != ws[j].0@);
        }
    }
}

proof fn lemma_entries_push(ws: Seq<(String, Vec<Window>)>, e: (String, Vec<Window>))
    requires
        names_unique(ws.push(e)),
    ensures
        names_unique(ws),
        entries_map(ws.push(e)) == entries_map(ws).insert(e.0@, e.1@),
{
    let t = ws.push(e);
    assert forall|i: int, j: int| 0 <= i < j < ws.len() implies ws[i].0@ != ws[j].0@ by {
        assert(t[i] == ws[i] && t[j] == ws[j]);
    }
    let l = entries_map(t);
    let r = entries_map(ws).insert(e.0@, e.1@);
    assert forall|x: Seq<char>| l.dom().contains(x) <==> r.dom().contains(x) by {
        if names(t, x) {
            let i = choose|i: int| 0 <= i < t.len() && (#[trigger] t[i]).0@ == x;
            if i < ws.len() {
                assert(ws[i] == t[i]);
            }
        }
        if names(ws, x) {
            let i = choose|i: int| 0 <= i < ws.len() && (#[trigger] ws[i]).0@ == x;
            assert(t[i] == ws[i]);
        }
        if x == e.0@ {
            assert(t[ws.len() as int] == e);
        }
    }
    assert forall|x: Seq<char>| l.dom().contains(x) implies l[x] == r[x] by {
        let i = choose|i: int| 0 <= i < t.len() && (#[trigger] t[i]).0@ == x;
        lemma_entries_map_at(t, i);
        if i < ws.len() {
            assert(ws[i] == t[i]);
            lemma_entries_map_at(ws, i);
        }
    }
    assert(l =~= r);
}

fn copy_windows(v: &Vec<Window>) -> (r: Vec<Window>)
    ensures
        r@ == v@,
{
    let mut r: Vec<Window> = Vec::new();
    let mut i: usize = 0;
    while i < v.len()
        invariant
            i <= v.len(),
            r@ == v@.subrange(0, i as int),
        decreases v.len() - i,
    {
        r.push(v[i].copied());
        i += 1;
    }
    proof {
        assert(v@.subrange(0, v.len() as int) =~= v@);
    }
    r
}

fn position_named(ws: &Vec<(String, Vec<Window>)>, name: &String) -> (r: Option<usize>)
    ensures
        match r {
            Some(a) => a < ws.len() && ws[a as int].0@ == name@,
            None => !names(ws@, name@),
        },
{
    let mut a: usize = 0;
    while a < ws.len()
        invariant
            a <= ws.len(),
            forall|b: int| 0 <= b < a ==> (#[trigger] ws[b]).0@ != name@,
        decreases ws.len() - a,
    {
        if ws[a].0 == *name {
            return Some(a);
        }
        a += 1;
    }
    None
}

/// Files `windows` under `name`, replacing what was filed under it before.
pub fn put(ws: &mut Vec<(String, Vec<Window>)>, name: String, windows: Vec<Window>)
    requires
        names_unique(old(ws)@),
    ensures
        names_unique(final(ws)@),
        entries_map(final(ws)@) == entries_map(old(ws)@).insert(name@, windows@),
{
    let ghost s = ws@;
    let ghost e = (name, windows);
    match position_named(ws, &name) {
        Some(a) => {
            ws.remove(a);
            ws.insert(a, (name, windows));
            proof {
                let t = ws@;
                assert(t =~= s.update(a as int, e));
                assert forall|i: int, j: int| 0 <= i < j < t.len() implies t[i].0@ != t[j].0@ by {
                    assert(t[i].0@ == s[i].0@ && t[j].0@ == s[j].0@);
                }
                let l = entries_map(t);
                let r = entries_map(s).insert(name@, windows@);
                assert forall|x: Seq<char>| l.dom().contains(x) <==> r.dom().contains(x) by {
                    if names(t, x) {
                        let i = choose|i: int| 0 <= i < t.len() && (#[trigger] t[i]).0@ == x;
                        assert(s[i].0@ == x);
                    }
                    if names(s, x) {
                        let i = choose|i: int| 0 <= i < s.len() && (#[trigger] s[i]).0@ == x;
                        assert(t[i].0@ == x);
                    }
                }
                assert forall|x: Seq<char>| l.dom().contains(x) implies l[x] == r[x] by {
                    let i = choose|i: int| 0 <= i < t.len() && (#[trigger] t[i]).0@ == x;
                    lemma_entries_map_at(t, i);
                    if i != a {
                        assert(t[i] == s[i]);
                        lemma_entries_map_at(s, i);
                    }
                }
                assert(l =~= r);
            }
        },
        None => {
            ws.push((name, windows));
            proof {
                let t = ws@;
                assert forall|i: int, j: int| 0 <= i < j < t.len() implies t[i].0@ != t[j].0@ by {
                    if j == s.len() {
                        assert(s[i] == t[i]);
                    } else {
                        assert(s[i] == t[i] && s[j] == t[j]);
                    }
                }
                lemma_entries_push(s, e);
            }
        },
    }
}

/// Files every entry of `more` into `ws`, each replacing what was filed
/// under its name.
pub fn merge(ws: &mut Vec<(String, Vec<Window>)>, more: &Vec<(String, Vec<Window>)>)
    requires
        names_unique(old(ws)@),
        names_unique(more@),
    ensures
        names_unique(final(ws)@),
        entries_map(final(ws)@) == entries_map(old(ws)@).union_prefer_right(entries_map(more@)),
{
    let ghost m0 = entries_map(ws@);
    let mut i: usize = 0;
    while i < more.len()
        invariant
            i <= more.len(),
            names_unique(more@),
            names_unique(ws@),
            entries_map(ws@) == m0.union_prefer_right(entries_map(more@.subrange(0, i as int))),
        decreases more.len() - i,
    {
        let ghost prefix = more@.subrange(0, i as int);
        proof {
            assert(more@.subrange(0, i + 1) =~= prefix.push(more[i as int]));
            let grown = more@.subrange(0, i + 1);
            assert forall|a: int, b: int| 0 <= a < b < grown.len() implies (#[trigger] grown[a]).0@
                != (#[trigger] grown[b]).0@ by {
                assert(grown[a] == more[a]);
                assert(grown[b] == more[b]);
            }
            lemma_entries_push(prefix, more[i as int]);
        }
        let name = more[i].0.clone();
        let windows = copy_windows(&more[i].1);
        put(ws, name, windows);
        proof {
            assert(entries_map(ws@) =~= m0.union_prefer_right(
                entries_map(more@.subrange(0, i + 1)),
            ));
        }
        i += 1;
    }
    proof {
        assert(more@.subrange(0, more.len() as int) =~= more@);
    }
}

} // verus!
