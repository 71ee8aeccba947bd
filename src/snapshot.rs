//! The windows of each workspace, from a flat snapshot of clients and
//! workspaces (the hook/poll protocol, which has no layout tree).
use vstd::prelude::*;
use itertools::Itertools;
use crate::text::{id_text, int_text, lemma_int_text_injective};
use crate::window::Window;
use crate::workspace::names_unique;

verus! {

/// One client window, as a snapshot reports it.
#[derive(Debug)]
pub struct Client {
    /// Identifier of the workspace that holds the client.
    pub workspace_id: i32,
    /// Horizontal position on screen, in pixels.
    pub x: i32,
    /// Vertical position on screen, in pixels.
    pub y: i32,
    /// Window title; empty when there is none.
    pub title: String,
    /// Window class; empty when there is none.
    pub class: String,
}

/// One workspace, as a snapshot reports it.
#[derive(Debug, Clone, Copy)]
pub struct WorkspaceInfo {
    /// The workspace identifier.
    pub id: i32,
    /// How many windows the workspace holds.
    pub windows: u16,
}

/// A window with its screen position as `(y, x)`.
pub type Placed = ((i32, i32), Window);

/// The values filed under key `k`, in their order in `items`.
pub open spec fn group_of<V>(items: Seq<(i32, V)>, k: i32) -> Seq<V> {
    items.filter(|e: (i32, V)| e.0 == k).map_values(|e: (i32, V)| e.1)
}

/// Relies on `Itertools::into_group_map`: one group per distinct key, each
/// holding that key's values in input order. The groups come out in the
/// order of a walk of the `HashMap` it builds, which is left open.
#[verifier::external_body]
fn group_by_key<V>(items: Vec<(i32, V)>) -> (r: Vec<(i32, Vec<V>)>)
    ensures
        forall|i: int, j: int| 0 <= i < j < r.len() ==> r[i].0 != r[j].0,
        forall|i: int| 0 <= i < r.len() ==> (#[trigger] r[i]).1@ == group_of(items@, r[i].0),
        forall|j: int|
            0 <= j < items.len() ==> exists|i: int|
                0 <= i < r.len() && (#[trigger] r[i]).0 == (#[trigger] items[j]).0,
        forall|i: int|
            0 <= i < r.len() ==> exists|j: int|
                0 <= j < items.len() && (#[trigger] items[j]).0 == (#[trigger] r[i]).0,
{
    items.into_iter().into_group_map().into_iter().collect()
}

/// An empty text stands for a missing field.
pub open spec fn text_field(s: String) -> Option<String> {
    if s@.len() == 0 {
        None
    } else {
        Some(s)
    }
}

/// The window that a client stands for: its title and class; it has no app id.
pub open spec fn window_of_client(c: Client) -> Window {
    Window { name: text_field(c.title), app_id: None, window_properties_class: text_field(c.class) }
}

/// A client filed under its workspace, with its position.
pub open spec fn placed_of(c: Client) -> (i32, Placed) {
    (c.workspace_id, ((c.y, c.x), window_of_client(c)))
}

/// Position `a` comes no later than `b`: higher on screen, or level and not
/// further right.
pub open spec fn not_after(a: (i32, i32), b: (i32, i32)) -> bool {
    a.0 < b.0 || (a.0 == b.0 && a.1 <= b.1)
}

/// `e` inserted into `s` after every trailing element that does not come
/// after it.
pub open spec fn insert_by_position(s: Seq<Placed>, e: Placed) -> Seq<Placed>
    decreases s.len(),
{
    if s.len() == 0 {
        seq![e]
    } else if not_after(s.last().0, e.0) {
        s.push(e)
    } else {
        insert_by_position(s.drop_last(), e).push(s.last())
    }
}

/// `s` sorted into reading order (top to bottom, then left to right) by
/// insertion; `lemma_sorted_by_position_is_stable` shows that this is the
/// stable sort by `(y, x)`.
pub open spec fn sorted_by_position(s: Seq<Placed>) -> Seq<Placed>
    decreases s.len(),
{
    if s.len() == 0 {
        s
    } else {
        insert_by_position(sorted_by_position(s.drop_last()), s.last())
    }
}

/// `s` is in reading order: no window comes before one that is higher on
/// screen, or level and further left.
pub open spec fn in_reading_order(s: Seq<Placed>) -> bool {
    forall|i: int, j: int| 0 <= i < j < s.len() ==> not_after(s[i].0, s[j].0)
}

/// The windows of `s` at position `p`, in their order in `s`.
pub open spec fn at_position(s: Seq<Placed>, p: (i32, i32)) -> Seq<Placed>
    decreases s.len(),
{
    if s.len() == 0 {
        Seq::empty()
    } else if s.last().0 == p {
        at_position(s.drop_last(), p).push(s.last())
    } else {
        at_position(s.drop_last(), p)
    }
}

/// `sorted_by_position` is a stable sort: its result is in reading order
/// and holds, at every position, the windows of `s` at that position in
/// their order in `s`.
pub proof fn lemma_sorted_by_position_is_stable(s: Seq<Placed>)
    ensures
        sorted_by_position(s).len() == s.len(),
        in_reading_order(sorted_by_position(s)),
        forall|p: (i32, i32)| #[trigger] at_position(sorted_by_position(s), p) == at_position(s, p),
    decreases s.len(),
{
    if s.len() > 0 {
        let d = s.drop_last();
        let e = s.last();
        lemma_sorted_by_position_is_stable(d);
        let t = sorted_by_position(d);
        lemma_insert_keeps_order(t, e);
        assert forall|p: (i32, i32)| #[trigger]
            at_position(sorted_by_position(s), p) == at_position(s, p) by {
            lemma_insert_at_position(t, e, p);
            assert(at_position(t, p) == at_position(d, p));
        }
    }
}

proof fn lemma_insert_at_position(t: Seq<Placed>, e: Placed, p: (i32, i32))
    ensures
        at_position(insert_by_position(t, e), p) == if e.0 == p {
            at_position(t, p).push(e)
        } else {
            at_position(t, p)
        },
    decreases t.len(),
{
    if t.len() == 0 {
        assert(seq![e].drop_last() =~= t);
        assert(seq![e].last() == e);
    } else if not_after(t.last().0, e.0) {
        assert(t.push(e).drop_last() =~= t);
    } else {
        let x = insert_by_position(t.drop_last(), e);
        lemma_insert_at_position(t.drop_last(), e, p);
        assert(x.push(t.last()).drop_last() =~= x);
    }
}

proof fn lemma_insert_keeps_order(t: Seq<Placed>, e: Placed)
    requires
        in_reading_order(t),
    ensures
        insert_by_position(t, e).len() == t.len() + 1,
        in_reading_order(insert_by_position(t, e)),
        forall|i: int|
            0 <= i < t.len() + 1 ==> #[trigger] insert_by_position(t, e)[i] == e || t.contains(
                insert_by_position(t, e)[i],
            ),
    decreases t.len(),
{
    let r = insert_by_position(t, e);
    if t.len() == 0 {
    } else if not_after(t.last().0, e.0) {
        assert forall|i: int| 0 <= i < r.len() - 1 implies t.contains(#[trigger] r[i]) by {
            assert(r[i] == t[i]);
        }
        assert forall|i: int, j: int| 0 <= i < j < r.len() implies not_after(r[i].0, r[j].0) by {
            assert(r[i] == t[i]);
            if j == t.len() {
                assert(t[t.len() - 1] == t.last());
                if i < t.len() - 1 {
                    assert(not_after(t[i].0, t[t.len() - 1].0));
                }
            } else {
                assert(r[j] == t[j]);
            }
        }
    } else {
        let d = t.drop_last();
        let l = t.last();
        assert(in_reading_order(d)) by {
            assert forall|i: int, j: int| 0 <= i < j < d.len() implies not_after(d[i].0, d[j].0) by {
                assert(d[i] == t[i] && d[j] == t[j]);
            }
        }
        lemma_insert_keeps_order(d, e);
        let x = insert_by_position(d, e);
        assert forall|i: int| 0 <= i < x.len() implies not_after(#[trigger] x[i].0, l.0) by {
            if x[i] != e {
                assert(d.contains(x[i]));
                let j = choose|j: int| 0 <= j < d.len() && d[j] == x[i];
                assert(t[j] == d[j]);
                assert(t[t.len() - 1] == l);
            }
        }
        assert forall|i: int, j: int| 0 <= i < j < r.len() implies not_after(r[i].0, r[j].0) by {
            assert(r[i] == x[i]);
            if j < x.len() {
                assert(r[j] == x[j]);
            }
        }
        assert forall|i: int| 0 <= i < r.len() implies #[trigger] r[i] == e || t.contains(r[i]) by {
            if i == x.len() {
                assert(t[t.len() - 1] == r[i]);
            } else {
                assert(r[i] == x[i]);
                if x[i] != e {
                    let j = choose|j: int| 0 <= j < d.len() && d[j] == x[i];
                    assert(t[j] == d[j]);
                }
            }
        }
    }
}

/// The windows of `s` that carry an identity, in order.
pub open spec fn identified_windows(s: Seq<Placed>) -> Seq<Window>
    decreases s.len(),
{
    if s.len() == 0 {
        Seq::empty()
    } else if s.last().1.identified() {
        identified_windows(s.drop_last()).push(s.last().1)
    } else {
        identified_windows(s.drop_last())
    }
}

/// The windows of the clients on workspace `k`, in reading order.
pub open spec fn client_windows(clients: Seq<Client>, k: i32) -> Seq<Window> {
    identified_windows(
        sorted_by_position(group_of(clients.map_values(|c: Client| placed_of(c)), k)),
    )
}

/// Some client lies on workspace `k`.
pub open spec fn has_client(clients: Seq<Client>, k: i32) -> bool {
    exists|j: int| 0 <= j < clients.len() && (#[trigger] clients[j]).workspace_id == k
}

/// The snapshot reports workspace `k` with no window.
pub open spec fn reported_empty(infos: Seq<WorkspaceInfo>, k: i32) -> bool {
    exists|j: int| 0 <= j < infos.len() && (#[trigger] infos[j]).id == k && infos[j].windows == 0
}

/// Workspace `k` appears in the result.
pub open spec fn listed(clients: Seq<Client>, infos: Seq<WorkspaceInfo>, k: i32) -> bool {
    has_client(clients, k) || reported_empty(infos, k)
}

/// The windows listed for workspace `k`: those of its clients, none when
/// no client lies on it. A workspace reported empty while clients lie on it
/// (the two snapshots are taken at different moments) keeps its clients.
pub open spec fn snapshot_windows(clients: Seq<Client>, k: i32) -> Seq<Window> {
    if has_client(clients, k) {
        client_windows(clients, k)
    } else {
        Seq::empty()
    }
}

fn text_field_of(s: &String) -> (r: Option<String>)
    ensures
        r == text_field(*s),
{
    if s.as_str().is_empty() {
        None
    } else {
        Some(s.clone())
    }
}

fn placed_client(c: &Client) -> (r: (i32, Placed))
    ensures
        r == placed_of(*c),
{
    let w = Window {
        name: text_field_of(&c.title),
        app_id: None,
        window_properties_class: text_field_of(&c.class),
    };
    (c.workspace_id, ((c.y, c.x), w))
}

fn is_not_after(a: (i32, i32), b: (i32, i32)) -> (r: bool)
    ensures
        r == not_after(a, b),
{
    a.0 < b.0 || (a.0 == b.0 && a.1 <= b.1)
}

proof fn lemma_insert_at(s: Seq<Placed>, e: Placed, j: int)
    requires
        0 <= j <= s.len(),
        forall|k: int| j <= k < s.len() ==> !not_after(#[trigger] s[k].0, e.0),
        j == 0 || not_after(s[j - 1].0, e.0),
    ensures
        insert_by_position(s, e) == s.insert(j, e),
    decreases s.len(),
{
    if s.len() == 0 {
        assert(s.insert(j, e) =~= seq![e]);
    } else if j == s.len() {
        assert(s.insert(j, e) =~= s.push(e));
    } else {
        let t = s.drop_last();
        assert forall|k: int| j <= k < t.len() implies !not_after(#[trigger] t[k].0, e.0) by {
            assert(t[k] == s[k]);
        }
        lemma_insert_at(t, e, j);
        assert(s.insert(j, e) =~= t.insert(j, e).push(s.last()));
    }
}

/// Where `e` goes in `s`: after the last element that does not come after it.
fn insertion_point(s: &Vec<Placed>, key: (i32, i32)) -> (j: usize)
    ensures
        j <= s.len(),
        forall|k: int| j <= k < s.len() ==> !not_after(#[trigger] s[k].0, key),
        j == 0 || not_after(s[j - 1].0, key),
{
    let mut j = s.len();
    while j > 0 && !is_not_after(s[j - 1].0, key)
        invariant
            j <= s.len(),
            forall|k: int| j <= k < s.len() ==> !not_after(#[trigger] s[k].0, key),
        decreases j,
    {
        j -= 1;
    }
    j
}

/// Orders windows by screen position; a stable insertion sort.
fn sort_by_position(v: &Vec<Placed>) -> (r: Vec<Placed>)
    ensures
        r@ == sorted_by_position(v@),
{
    let mut r: Vec<Placed> = Vec::new();
    let mut i: usize = 0;
    while i < v.len()
        invariant
            i <= v.len(),
            r@ == sorted_by_position(v@.subrange(0, i as int)),
        decreases v.len() - i,
    {
        let e: Placed = (v[i].0, v[i].1.copied());
        let j = insertion_point(&r, e.0);
        proof {
            lemma_insert_at(r@, e, j as int);
            assert(v@.subrange(0, i + 1).drop_last() =~= v@.subrange(0, i as int));
        }
        r.insert(j, e);
        i += 1;
    }
    proof {
        assert(v@.subrange(0, v.len() as int) =~= v@);
    }
    r
}

fn keep_identified(s: &Vec<Placed>) -> (r: Vec<Window>)
    ensures
        r@ == identified_windows(s@),
{
    let mut r: Vec<Window> = Vec::new();
    let mut i: usize = 0;
    while i < s.len()
        invariant
            i <= s.len(),
            r@ == identified_windows(s@.subrange(0, i as int)),
        decreases s.len() - i,
    {
        proof {
            assert(s@.subrange(0, i + 1).drop_last() =~= s@.subrange(0, i as int));
        }
        if s[i].1.has_identity() {
            r.push(s[i].1.copied());
        }
        i += 1;
    }
    proof {
        assert(s@.subrange(0, s.len() as int) =~= s@);
    }
    r
}

fn position_of(ids: &Vec<i32>, k: i32) -> (r: Option<usize>)
    ensures
        match r {
            Some(a) => a < ids.len() && ids[a as int] == k,
            None => forall|a: int| 0 <= a < ids.len() ==> ids[a] != k,
        },
{
    let mut a: usize = 0;
    while a < ids.len()
        invariant
            a <= ids.len(),
            forall|b: int| 0 <= b < a ==> ids[b] != k,
        decreases ids.len() - a,
    {
        if ids[a] == k {
            return Some(a);
        }
        a += 1;
    }
    None
}

/// Entry `e` lists workspace `k` of the snapshot, with its windows.
pub open spec fn lists_workspace(
    clients: Seq<Client>,
    infos: Seq<WorkspaceInfo>,
    e: (String, Vec<Window>),
    k: i32,
) -> bool {
    listed(clients, infos, k) && e.0@ == int_text(k as int) && e.1@ == snapshot_windows(clients, k)
}

/// The workspace identifier whose decimal text is `name`.
pub open spec fn id_named(name: Seq<char>) -> i32 {
    choose|k: i32| int_text(k as int) == name
}

/// The entries `r` are named after `ids`, one for one, with distinct ids.
pub open spec fn named_after(ids: Seq<i32>, r: Seq<(String, Vec<Window>)>) -> bool {
    &&& ids.len() == r.len()
    &&& forall|a: int, b: int| 0 <= a < b < ids.len() ==> ids[a] != ids[b]
    &&& forall|a: int| 0 <= a < ids.len() ==> (#[trigger] r[a]).0@ == int_text(ids[a] as int)
}

fn place_clients(clients: &Vec<Client>) -> (r: Vec<(i32, Placed)>)
    ensures
        r@ == clients@.map_values(|c: Client| placed_of(c)),
{
    let mut placed: Vec<(i32, Placed)> = Vec::new();
    let mut i: usize = 0;
    while i < clients.len()
        invariant
            i <= clients.len(),
            placed.len() == i,
            forall|j: int| 0 <= j < i ==> placed[j] == placed_of(#[trigger] clients[j]),
        decreases clients.len() - i,
    {
        placed.push(placed_client(&clients[i]));
        i += 1;
    }
    proof {
        assert(placed@ =~= clients@.map_values(|c: Client| placed_of(c)));
    }
    placed
}

/// One entry per workspace that holds a client, with its windows.
fn client_groups(clients: &Vec<Client>) -> (r: (Vec<i32>, Vec<(String, Vec<Window>)>))
    ensures
        named_after(r.0@, r.1@),
        forall|a: int|
            0 <= a < r.0.len() ==> (#[trigger] r.1[a]).1@ == client_windows(clients@, r.0[a]),
        forall|a: int| 0 <= a < r.0.len() ==> has_client(clients@, #[trigger] r.0[a]),
        forall|k: i32|
            has_client(clients@, k) ==> exists|a: int| 0 <= a < r.0.len() && #[trigger] r.0[a] == k,
{
    let ghost cs = clients@;
    let placed = place_clients(clients);
    let ghost items = placed@;
    let groups = group_by_key(placed);
    let mut ids: Vec<i32> = Vec::new();
    let mut r: Vec<(String, Vec<Window>)> = Vec::new();
    let mut g: usize = 0;
    while g < groups.len()
        invariant
            g <= groups.len(),
            ids.len() == g,
            r.len() == g,
            items == cs.map_values(|c: Client| placed_of(c)),
            forall|a: int| 0 <= a < g ==> #[trigger] ids[a] == groups[a].0,
            forall|a: int|
                0 <= a < groups.len() ==> (#[trigger] groups[a]).1@ == group_of(items, groups[a].0),
            forall|a: int|
                0 <= a < g ==> (#[trigger] r[a]).0@ == int_text(ids[a] as int) && r[a].1@
                    == client_windows(cs, ids[a]),
        decreases groups.len() - g,
    {
        let k = groups[g].0;
        let sorted = sort_by_position(&groups[g].1);
        let ws = keep_identified(&sorted);
        r.push((id_text(k), ws));
        ids.push(k);
        g += 1;
    }
    proof {
        assert forall|a: int, b: int| 0 <= a < b < ids.len() implies ids[a] != ids[b] by {
            assert(ids[a] == groups[a].0 && ids[b] == groups[b].0);
        }
        assert forall|a: int| 0 <= a < ids.len() implies has_client(cs, #[trigger] ids[a]) by {
            assert(ids[a] == groups[a].0);
            let j = choose|j: int|
                0 <= j < items.len() && (#[trigger] items[j]).0 == (#[trigger] groups[a]).0;
            assert(items[j] == placed_of(cs[j]));
        }
        assert forall|k: i32| has_client(cs, k) implies exists|a: int|
            0 <= a < ids.len() && #[trigger] ids[a] == k by {
            let j = choose|j: int| 0 <= j < cs.len() && (#[trigger] cs[j]).workspace_id == k;
            assert(items[j] == placed_of(cs[j]));
            let a = choose|a: int|
                0 <= a < groups.len() && (#[trigger] groups[a]).0 == (#[trigger] items[j]).0;
            assert(ids[a] == k);
        }
    }
    (ids, r)
}

/// Adding the next workspace of a snapshot to what was seen before it.
proof fn lemma_reported_empty_push(before: Seq<WorkspaceInfo>, info: WorkspaceInfo, k: i32)
    ensures
        reported_empty(before.push(info), k) <==> reported_empty(before, k) || (info.windows == 0
            && info.id == k),
{
    let after = before.push(info);
    if reported_empty(before, k) {
        let j = choose|j: int|
            0 <= j < before.len() && (#[trigger] before[j]).id == k && before[j].windows == 0;
        assert(after[j] == before[j]);
    }
    if reported_empty(after, k) && !reported_empty(before, k) {
        let j = choose|j: int|
            0 <= j < after.len() && (#[trigger] after[j]).id == k && after[j].windows == 0;
        if j < before.len() {
            assert(after[j] == before[j]);
        }
    }
    if info.windows == 0 && info.id == k {
        assert(after[before.len() as int] == info);
    }
}

/// Lists every workspace that the snapshot reports empty and that is not
/// listed yet, with no window.
fn add_empty_workspaces(
    ids: &mut Vec<i32>,
    r: &mut Vec<(String, Vec<Window>)>,
    clients: &Vec<Client>,
    workspaces: &Vec<WorkspaceInfo>,
)
    requires
        named_after(old(ids)@, old(r)@),
        forall|a: int|
            0 <= a < old(ids).len() ==> (#[trigger] old(r)[a]).1@ == client_windows(
                clients@,
                old(ids)[a],
            ),
        forall|a: int| 0 <= a < old(ids).len() ==> has_client(clients@, #[trigger] old(ids)[a]),
        forall|k: i32|
            has_client(clients@, k) ==> exists|a: int|
                0 <= a < old(ids).len() && #[trigger] old(ids)[a] == k,
    ensures
        named_after(final(ids)@, final(r)@),
        forall|a: int|
            0 <= a < final(ids).len() ==> (#[trigger] final(r)[a]).1@ == snapshot_windows(
                clients@,
                final(ids)[a],
            ),
        forall|a: int|
            0 <= a < final(ids).len() ==> listed(clients@, workspaces@, #[trigger] final(ids)[a]),
        forall|k: i32|
            listed(clients@, workspaces@, k) ==> exists|a: int|
                0 <= a < final(ids).len() && #[trigger] final(ids)[a] == k,
{
    let ghost cs = clients@;
    let ghost infos = workspaces@;
    proof {
        assert(infos.subrange(0, 0) =~= Seq::<WorkspaceInfo>::empty());
    }
    let mut w: usize = 0;
    while w < workspaces.len()
        invariant
            w <= workspaces.len(),
            cs == clients@,
            infos == workspaces@,
            named_after(ids@, r@),
            forall|a: int|
                0 <= a < ids.len() ==> (#[trigger] r[a]).1@ == snapshot_windows(cs, ids[a]),
            forall|a: int|
                0 <= a < ids.len() ==> listed(cs, infos.subrange(0, w as int), #[trigger] ids[a]),
            forall|k: i32|
                listed(cs, infos.subrange(0, w as int), k) ==> exists|a: int|
                    0 <= a < ids.len() && #[trigger] ids[a] == k,
        decreases workspaces.len() - w,
    {
        let info = workspaces[w];
        let ghost ids0 = ids@;
        let ghost before = infos.subrange(0, w as int);
        let ghost after = infos.subrange(0, w + 1);
        proof {
            assert(after =~= before.push(info));
            assert forall|k: i32| #[trigger]
                reported_empty(after, k) <==> reported_empty(before, k) || (info.windows == 0
                    && info.id == k) by {
                lemma_reported_empty_push(before, info, k);
            }
        }
        if info.windows == 0 {
            match position_of(ids, info.id) {
                Some(a) => {
                    proof {
                        assert forall|k: i32| listed(cs, after, k) implies exists|b: int|
                            0 <= b < ids.len() && #[trigger] ids[b] == k by {
                            if k == info.id {
                                assert(ids[a as int] == k);
                            } else {
                                assert(listed(cs, before, k));
                            }
                        }
                    }
                },
                None => {
                    let ghost r0 = r@;
                    r.push((id_text(info.id), Vec::new()));
                    ids.push(info.id);
                    proof {
                        if has_client(cs, info.id) {
                            assert(listed(cs, before, info.id));
                            let b = choose|b: int| 0 <= b < ids0.len() && #[trigger] ids0[b] == info.id;
                            assert(ids0[b] == info.id);
                        }
                        assert(r[r.len() - 1].1@ =~= snapshot_windows(cs, info.id));
                        assert forall|a: int| 0 <= a < ids.len() implies (#[trigger] r[a]).1@
                            == snapshot_windows(cs, ids[a]) by {
                            if a < r0.len() {
                                assert(r[a] == r0[a]);
                            }
                        }
                        assert forall|k: i32| listed(cs, after, k) implies exists|b: int|
                            0 <= b < ids.len() && #[trigger] ids[b] == k by {
                            if k == info.id {
                                assert(ids[ids.len() - 1] == k);
                            } else {
                                assert(listed(cs, before, k));
                                let b = choose|b: int| 0 <= b < ids0.len() && #[trigger] ids0[b] == k;
                                assert(ids[b] == k);
                            }
                        }
                    }
                },
            }
        } else {
            proof {
                assert forall|k: i32| listed(cs, after, k) implies exists|b: int|
                    0 <= b < ids.len() && #[trigger] ids[b] == k by {
                    assert(listed(cs, before, k));
                }
            }
        }
        w += 1;
    }
    proof {
        assert(infos.subrange(0, infos.len() as int) =~= infos);
    }
}

/// The windows of each workspace in a snapshot, named by the decimal text
/// of the workspace identifier.
///
/// Clients are grouped by workspace; each group is put in reading order
/// (by `y`, then `x`) and clients without title and class are left out.
/// Every workspace reported with no window is listed too; it keeps the
/// windows of any client that lies on it, and has none otherwise.
/// The order of the entries is left open.
pub fn windows_by_workspace(clients: &Vec<Client>, workspaces: &Vec<WorkspaceInfo>) -> (r: Vec<
    (String, Vec<Window>),
>)
    ensures
        names_unique(r@),
        forall|i: int|
            0 <= i < r.len() ==> lists_workspace(
                clients@,
                workspaces@,
                #[trigger] r[i],
                id_named(r[i].0@),
            ),
        forall|k: i32|
            listed(clients@, workspaces@, k) ==> exists|i: int|
                0 <= i < r.len() && (#[trigger] r[i]).0@ == int_text(k as int),
{
    let (mut ids, mut r) = client_groups(clients);
    add_empty_workspaces(&mut ids, &mut r, clients, workspaces);
    proof {
        assert forall|i: int, j: int| 0 <= i < j < r.len() implies r[i].0@ != r[j].0@ by {
            if r[i].0@ == r[j].0@ {
                lemma_int_text_injective(ids[i] as int, ids[j] as int);
            }
        }
        assert forall|i: int| 0 <= i < r.len() implies lists_workspace(
            clients@,
            workspaces@,
            #[trigger] r[i],
            id_named(r[i].0@),
        ) by {
            let k = ids[i];
            assert(int_text(k as int) == r[i].0@);
            let c = id_named(r[i].0@);
            lemma_int_text_injective(c as int, k as int);
        }
        assert forall|k: i32| listed(clients@, workspaces@, k) implies exists|i: int|
            0 <= i < r.len() && (#[trigger] r[i]).0@ == int_text(k as int) by {
            let a = choose|a: int| 0 <= a < ids.len() && #[trigger] ids[a] == k;
            assert(r[a].0@ == int_text(k as int));
        }
    }
    r
}

} // verus!
