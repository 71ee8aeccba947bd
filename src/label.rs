//! Icon labels for windows and workspaces.
use vstd::prelude::*;
use crate::config::{fallback_of, rules_of, separator_of, Config};
use crate::text::{first_token, first_token_of};
use crate::window::Window;

verus! {

/// The icon of the first rule, from position `i` on, whose pattern the
/// window matches; `fallback` when there is none.
pub open spec fn icon_from(
    rules: Seq<(Seq<char>, Seq<char>)>,
    w: Window,
    fallback: Seq<char>,
    i: int,
) -> Seq<char>
    decreases rules.len() - i,
{
    if i < 0 || i >= rules.len() {
        fallback
    } else if w.matches_spec(rules[i].0) {
        rules[i].1
    } else {
        icon_from(rules, w, fallback, i + 1)
    }
}

/// The icon of a window under a configuration: that of the first matching
/// rule in declaration order, else the fallback icon.
pub open spec fn icon_of(c: Config, w: Window) -> Seq<char> {
    icon_from(rules_of(c.mappings), w, fallback_of(c.other), 0)
}

/// The icons of `ws`, one per window, in order.
pub open spec fn icons_of(c: Config, ws: Seq<Window>) -> Seq<Seq<char>> {
    ws.map_values(|w: Window| icon_of(c, w))
}

/// `s` with every element after its first occurrence left out.
pub open spec fn distinct_in_order(s: Seq<Seq<char>>) -> Seq<Seq<char>>
    decreases s.len(),
{
    if s.len() == 0 {
        s
    } else if s.drop_last().contains(s.last()) {
        distinct_in_order(s.drop_last())
    } else {
        distinct_in_order(s.drop_last()).push(s.last())
    }
}

/// Each icon followed by a space, concatenated.
pub open spec fn spaced(icons: Seq<Seq<char>>) -> Seq<char>
    decreases icons.len(),
{
    if icons.len() == 0 {
        Seq::empty()
    } else {
        spaced(icons.drop_last()) + icons.last() + seq![' ']
    }
}

/// The icons that a workspace label shows for `ws`.
pub open spec fn shown_icons(c: Config, ws: Seq<Window>) -> Seq<Seq<char>> {
    if c.other.deduplicate_icons {
        distinct_in_order(icons_of(c, ws))
    } else {
        icons_of(c, ws)
    }
}

/// The label of a workspace that holds `ws`.
pub open spec fn label_of(c: Config, ws: Seq<Window>) -> Seq<char> {
    spaced(shown_icons(c, ws))
}

/// The new name of workspace `name`: its ordinal (the text before the first
/// separator) alone when the label is empty, else ordinal, separator, label.
pub open spec fn renamed(name: Seq<char>, sep: Seq<char>, label: Seq<char>) -> Seq<char> {
    if label.len() == 0 {
        first_token(name, sep)
    } else {
        first_token(name, sep) + sep + label
    }
}

/// `plan` renames each workspace of `ws`, in order, to the name its
/// windows give it under `c`.
pub open spec fn renames_for(
    c: Config,
    ws: Seq<(String, Vec<Window>)>,
    plan: Seq<(String, String)>,
) -> bool {
    &&& plan.len() == ws.len()
    &&& forall|i: int|
        0 <= i < plan.len() ==> (#[trigger] plan[i]).0@ == ws[i].0@ && plan[i].1@ == renamed(
            ws[i].0@,
            separator_of(c),
            label_of(c, ws[i].1@),
        )
}

/// The icon for `window`: the first rule, in declaration order, whose
/// pattern the window matches, else the fallback icon.
pub fn pretty_window(config: &Config, window: &Window) -> (r: String)
    ensures
        r@ == icon_of(*config, *window),
{
    let ghost rules = rules_of(config.mappings);
    let ghost fb = fallback_of(config.other);
    let n = crate::config::rule_count_of(config);
    let mut i: usize = 0;
    loop
        invariant
            rules == rules_of(config.mappings),
            n == rules.len(),
            i <= n,
            fb == fallback_of(config.other),
            icon_from(rules, *window, fb, 0) == icon_from(rules, *window, fb, i as int),
        decreases rules.len() - i,
    {
        match crate::config::rule_at_of(config, i) {
            Some((pattern, icon)) => {
                if window.matches(pattern.as_str()) {
                    return icon.clone();
                }
            },
            None => {
                return String::from_str(config.fallback_icon());
            },
        }
        i += 1;
    }
}

/// The position of the first rule, in declaration order, whose pattern
/// `window` matches; `None` when no rule does (the window then gets the
/// fallback icon).
pub fn matching_rule(config: &Config, window: &Window) -> (r: Option<usize>)
    ensures
        match r {
            Some(k) => k < config.rules().len() && window.matches_spec(config.rules()[k as int].0)
                && forall|j: int|
                0 <= j < k ==> !window.matches_spec(#[trigger] config.rules()[j].0),
            None => forall|j: int|
                0 <= j < config.rules().len() ==> !window.matches_spec(
                    #[trigger] config.rules()[j].0,
                ),
        },
{
    let n = crate::config::rule_count_of(config);
    let mut i: usize = 0;
    while i < n
        invariant
            i <= n,
            n == config.rules().len(),
            forall|j: int| 0 <= j < i ==> !window.matches_spec(#[trigger] config.rules()[j].0),
        decreases n - i,
    {
        if let Some((pattern, _)) = crate::config::rule_at_of(config, i) {
            if window.matches(pattern.as_str()) {
                return Some(i);
            }
        }
        i += 1;
    }
    None
}

proof fn lemma_contains_last(s: Seq<Seq<char>>, x: Seq<char>)
    requires
        s.len() > 0,
    ensures
        s.contains(x) <==> s.drop_last().contains(x) || s.last() == x,
{
    let p = s.drop_last();
    if s.contains(x) {
        let j = choose|j: int| 0 <= j < s.len() && s[j] == x;
        if j < p.len() {
            assert(p[j] == x);
        }
    }
    if p.contains(x) {
        let j = choose|j: int| 0 <= j < p.len() && p[j] == x;
        assert(s[j] == x);
    }
    if s.last() == x {
        assert(s[s.len() - 1] == x);
    }
}

proof fn lemma_distinct_contains(s: Seq<Seq<char>>, x: Seq<char>)
    ensures
        distinct_in_order(s).contains(x) <==> s.contains(x),
    decreases s.len(),
{
    if s.len() > 0 {
        let p = s.drop_last();
        lemma_distinct_contains(p, x);
        lemma_contains_last(s, x);
        if !p.contains(s.last()) {
            let d = distinct_in_order(p).push(s.last());
            lemma_contains_last(d, x);
            assert(d.drop_last() =~= distinct_in_order(p));
        }
    }
}

fn holds_icon(seen: &Vec<String>, icon: &String) -> (r: bool)
    ensures
        r == seen@.map_values(|t: String| t@).contains(icon@),
{
    let ghost views = seen@.map_values(|t: String| t@);
    let mut i: usize = 0;
    while i < seen.len()
        invariant
            i <= seen.len(),
            views == seen@.map_values(|t: String| t@),
            forall|j: int| 0 <= j < i ==> views[j] != icon@,
        decreases seen.len() - i,
    {
        if seen[i] == *icon {
            proof {
                assert(views[i as int] == icon@);
            }
            return true;
        }
        i += 1;
    }
    false
}

/// The label for a workspace holding `windows`: each window's icon followed
/// by a space, in window order; with `deduplicate_icons`, each icon only at
/// its first occurrence.
pub fn pretty_windows(config: &Config, windows: &[Window]) -> (r: String)
    ensures
        r@ == label_of(*config, windows@),
{
    let ghost icons = icons_of(*config, windows@);
    let mut s = String::new();
    let mut seen: Vec<String> = Vec::new();
    let mut i: usize = 0;
    while i < windows.len()
        invariant
            i <= windows.len(),
            icons == icons_of(*config, windows@),
            s@ == label_of(*config, windows@.subrange(0, i as int)),
            config.other.deduplicate_icons ==> seen@.map_values(|t: String| t@) == distinct_in_order(
                icons.subrange(0, i as int),
            ),
        decreases windows.len() - i,
    {
        let icon = pretty_window(config, &windows[i]);
        let ghost prev = icons.subrange(0, i as int);
        proof {
            assert(icons.subrange(0, i + 1) =~= prev.push(icon@));
            assert(icons_of(*config, windows@.subrange(0, i as int)) =~= prev);
            assert(icons_of(*config, windows@.subrange(0, i + 1)) =~= prev.push(icon@));
            assert(prev.push(icon@).drop_last() =~= prev);
        }
        if config.other.deduplicate_icons {
            let known = holds_icon(&seen, &icon);
            proof {
                lemma_distinct_contains(prev, icon@);
            }
            if !known {
                s.append(icon.as_str());
                s.append(" ");
                proof {
                    reveal_strlit(" ");
                    let d = distinct_in_order(prev);
                    assert(d.push(icon@).drop_last() =~= d);
                }
                seen.push(icon);
                proof {
                    assert(seen@.map_values(|t: String| t@) =~= distinct_in_order(prev).push(
                        seen@[seen.len() - 1]@,
                    ));
                }
            }
        } else {
            s.append(icon.as_str());
            s.append(" ");
            proof {
                reveal_strlit(" ");
                assert(prev.push(icon@).drop_last() =~= prev);
            }
        }
        i += 1;
    }
    proof {
        assert(windows@.subrange(0, windows.len() as int) =~= windows@);
    }
    s
}

/// The new name for workspace `name` given its label.
pub fn new_workspace_name(name: &str, sep: &str, label: &str) -> (r: String)
    ensures
        r@ == renamed(name@, sep@, label@),
{
    let ordinal = first_token_of(name, sep);
    let mut r = String::from_str(ordinal);
    if !label.is_empty() {
        r.append(sep);
        r.append(label);
    }
    r
}

/// One rename per workspace: the old name and the new one, in the order of
/// `workspaces`.
pub fn rename_plan(config: &Config, workspaces: &Vec<(String, Vec<Window>)>) -> (r: Vec<
    (String, String),
>)
    ensures
        renames_for(*config, workspaces@, r@),
{
    let sep = config.separator();
    let mut r: Vec<(String, String)> = Vec::new();
    let mut i: usize = 0;
    while i < workspaces.len()
        invariant
            i <= workspaces.len(),
            r.len() == i,
            sep@ == separator_of(*config),
            forall|j: int|
                0 <= j < i ==> (#[trigger] r[j]).0@ == workspaces[j].0@ && r[j].1@ == renamed(
                    workspaces[j].0@,
                    separator_of(*config),
                    label_of(*config, workspaces[j].1@),
                ),
        decreases workspaces.len() - i,
    {
        let name = &workspaces[i].0;
        let label = pretty_windows(config, workspaces[i].1.as_slice());
        let new_name = new_workspace_name(name.as_str(), sep, label.as_str());
        r.push((name.clone(), new_name));
        i += 1;
    }
    r
}

/// A window that matches no rule gets the fallback icon.
pub proof fn lemma_unmatched_window_gets_fallback(c: Config, w: Window)
    requires
        forall|i: int| 0 <= i < c.rules().len() ==> !w.matches_spec(#[trigger] c.rules()[i].0),
    ensures
        icon_of(c, w) == fallback_of(c.other),
{
    lemma_icon_from_unmatched(c.rules(), w, fallback_of(c.other), 0);
}

proof fn lemma_icon_from_unmatched(
    rules: Seq<(Seq<char>, Seq<char>)>,
    w: Window,
    fallback: Seq<char>,
    i: int,
)
    requires
        0 <= i,
        forall|j: int| 0 <= j < rules.len() ==> !w.matches_spec(#[trigger] rules[j].0),
    ensures
        icon_from(rules, w, fallback, i) == fallback,
    decreases rules.len() - i,
{
    if i < rules.len() {
        lemma_icon_from_unmatched(rules, w, fallback, i + 1);
    }
}

/// With `deduplicate_icons`, a label shows each icon of its windows exactly
/// once, in the order of first occurrence.
pub proof fn lemma_dedup_shows_each_icon_once(c: Config, ws: Seq<Window>)
    requires
        c.other.deduplicate_icons,
    ensures
        label_of(c, ws) == spaced(distinct_in_order(icons_of(c, ws))),
        distinct_in_order(icons_of(c, ws)).no_duplicates(),
        forall|x: Seq<char>|
            #[trigger] distinct_in_order(icons_of(c, ws)).contains(x) <==> icons_of(c, ws).contains(x),
{
    lemma_distinct_no_duplicates(icons_of(c, ws));
    assert forall|x: Seq<char>|
        #[trigger] distinct_in_order(icons_of(c, ws)).contains(x) <==> icons_of(c, ws).contains(x) by {
        lemma_distinct_contains(icons_of(c, ws), x);
    }
}

proof fn lemma_distinct_no_duplicates(s: Seq<Seq<char>>)
    ensures
        distinct_in_order(s).no_duplicates(),
    decreases s.len(),
{
    if s.len() > 0 {
        let p = s.drop_last();
        lemma_distinct_no_duplicates(p);
        if !p.contains(s.last()) {
            let d = distinct_in_order(p);
            lemma_distinct_contains(p, s.last());
            let e = d.push(s.last());
            assert forall|i: int, j: int| 0 <= i < e.len() && 0 <= j < e.len() && i != j implies e[i]
                != e[j] by {
                if i == d.len() {
                    assert(d[j] == e[j]);
                } else if j == d.len() {
                    assert(d[i] == e[i]);
                } else {
                    assert(d[i] == e[i] && d[j] == e[j]);
                }
            }
        }
    }
}

/// A workspace with no window is renamed to its ordinal alone, with no
/// separator and no icon.
pub proof fn lemma_empty_workspace_keeps_ordinal(c: Config, name: Seq<char>)
    ensures
        label_of(c, Seq::empty()).len() == 0,
        renamed(name, separator_of(c), label_of(c, Seq::empty())) == first_token(
            name,
            separator_of(c),
        ),
{
    let icons = icons_of(c, Seq::<Window>::empty());
    assert(icons =~= Seq::<Seq<char>>::empty());
    assert(distinct_in_order(icons) == icons);
}

/// How many times `ch` occurs in `s`.
pub open spec fn char_count(s: Seq<char>, ch: char) -> nat
    decreases s.len(),
{
    if s.len() == 0 {
        0
    } else if s.last() == ch {
        char_count(s.drop_last(), ch) + 1
    } else {
        char_count(s.drop_last(), ch)
    }
}

proof fn lemma_char_count_concat(a: Seq<char>, b: Seq<char>, ch: char)
    ensures
        char_count(a + b, ch) == char_count(a, ch) + char_count(b, ch),
    decreases b.len(),
{
    if b.len() > 0 {
        lemma_char_count_concat(a, b.drop_last(), ch);
        assert((a + b).drop_last() =~= a + b.drop_last());
    } else {
        assert(a + b =~= a);
    }
}

proof fn lemma_char_count_absent(s: Seq<char>, ch: char)
    requires
        !s.contains(ch),
    ensures
        char_count(s, ch) == 0,
    decreases s.len(),
{
    if s.len() > 0 {
        assert(s[s.len() - 1] == s.last());
        assert forall|i: int| 0 <= i < s.drop_last().len() implies s.drop_last()[i] != ch by {
            assert(s.drop_last()[i] == s[i]);
        }
        lemma_char_count_absent(s.drop_last(), ch);
    }
}

proof fn lemma_spaced_count(d: Seq<Seq<char>>, ch: char)
    requires
        ch != ' ',
        d.no_duplicates(),
        forall|i: int| 0 <= i < d.len() && d[i] != seq![ch] ==> !(#[trigger] d[i]).contains(ch),
    ensures
        char_count(spaced(d), ch) == if d.contains(seq![ch]) {
            1nat
        } else {
            0nat
        },
    decreases d.len(),
{
    if d.len() > 0 {
        let p = d.drop_last();
        let l = d.last();
        assert(p.no_duplicates()) by {
            assert forall|i: int, j: int| 0 <= i < p.len() && 0 <= j < p.len() && i != j implies p[i]
                != p[j] by {
                assert(p[i] == d[i] && p[j] == d[j]);
            }
        }
        assert forall|i: int| 0 <= i < p.len() && p[i] != seq![ch] implies !(#[trigger] p[i]).contains(
            ch,
        ) by {
            assert(p[i] == d[i]);
        }
        lemma_spaced_count(p, ch);
        lemma_char_count_concat(spaced(p) + l, seq![' '], ch);
        lemma_char_count_concat(spaced(p), l, ch);
        assert(seq![' '].drop_last() =~= Seq::<char>::empty());
        assert(seq![' '].last() == ' ');
        assert(char_count(seq![' '].drop_last(), ch) == 0);
        assert(char_count(seq![' '], ch) == 0);
        assert(spaced(d) == spaced(p) + l + seq![' ']);
        lemma_contains_last(d, seq![ch]);
        if l == seq![ch] {
            assert(l.drop_last() =~= Seq::<char>::empty());
            assert(char_count(l, ch) == 1);
            if p.contains(seq![ch]) {
                let j = choose|j: int| 0 <= j < p.len() && p[j] == seq![ch];
                assert(d[j] == d[d.len() - 1]);
            }
        } else {
            assert(d[d.len() - 1] == l);
            lemma_char_count_absent(l, ch);
        }
    }
}

/// With `deduplicate_icons`, an icon of one character that no other icon
/// holds occurs exactly once in the label, however many windows show it.
pub proof fn lemma_dedup_single_char_icon_once(c: Config, ws: Seq<Window>, ch: char)
    requires
        c.other.deduplicate_icons,
        ch != ' ',
        icons_of(c, ws).contains(seq![ch]),
        forall|i: int|
            0 <= i < ws.len() && icons_of(c, ws)[i] != seq![ch] ==> !(#[trigger] icons_of(
                c,
                ws,
            )[i]).contains(ch),
    ensures
        char_count(label_of(c, ws), ch) == 1,
{
    let icons = icons_of(c, ws);
    let d = distinct_in_order(icons);
    lemma_distinct_no_duplicates(icons);
    lemma_distinct_contains(icons, seq![ch]);
    assert forall|i: int| 0 <= i < d.len() && d[i] != seq![ch] implies !(#[trigger] d[i]).contains(
        ch,
    ) by {
        lemma_distinct_contains(icons, d[i]);
        assert(d.contains(d[i]));
        let j = choose|j: int| 0 <= j < icons.len() && icons[j] == d[i];
    }
    lemma_spaced_count(d, ch);
}

} // verus!
