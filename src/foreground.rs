//! Reading the window manager's list of visible windows.
//!
//! The introspection output is taken line by line. The n-th line holding
//! `package=` and the n-th line holding `canReceiveKeys()` are assumed to
//! describe the same window; this pairing rests on the command's own output
//! order. When the two counts differ, or a `package=` line has no package
//! name in it, the output is not trusted and no window is reported.
use vstd::prelude::*;
use vstd::string::StrSliceExecFns;

use crate::game_list::GameList;
use crate::text::{
    chars_of, contains, pieces, range_contains, split_on, split_ranges,
    Sep,
};
use crate::Fps;

verus! {

pub open spec fn package_marker() -> Seq<char> {
    "package="@
}

pub open spec fn keys_marker() -> Seq<char> {
    "canReceiveKeys()"@
}

pub open spec fn focus_marker() -> Seq<char> {
    "canReceiveKeys()=true"@
}

pub open spec fn is_package_line(l: Seq<char>) -> bool {
    contains(l, package_marker())
}

pub open spec fn is_keys_line(l: Seq<char>) -> bool {
    contains(l, keys_marker())
}

/// The non-empty runs of non-whitespace characters of a line.
pub open spec fn tokens(l: Seq<char>) -> Seq<Seq<char>> {
    split_on(l, Sep::Whitespace).filter(|t: Seq<char>| t.len() > 0)
}

/// The package named on a `package=` line: the third token, from its first
/// `=` up to the next `=` or its end.
pub open spec fn package_of(l: Seq<char>) -> Option<Seq<char>> {
    if tokens(l).len() >= 3 && split_on(tokens(l)[2], Sep::Equals).len() >= 2 {
        Some(split_on(tokens(l)[2], Sep::Equals)[1])
    } else {
        None
    }
}

pub open spec fn lines_of(s: Seq<char>) -> Seq<Seq<char>> {
    split_on(s, Sep::Newline)
}

pub open spec fn package_lines(s: Seq<char>) -> Seq<Seq<char>> {
    lines_of(s).filter(|l: Seq<char>| is_package_line(l))
}

pub open spec fn keys_lines(s: Seq<char>) -> Seq<Seq<char>> {
    lines_of(s).filter(|l: Seq<char>| is_keys_line(l))
}

/// The two kinds of line pair up one to one, and each `package=` line names a package.
pub open spec fn pairing_holds(s: Seq<char>) -> bool {
    &&& package_lines(s).len() == keys_lines(s).len()
    &&& forall|i: int| 0 <= i < package_lines(s).len() ==> #[trigger] package_of(package_lines(s)[i]) is Some
}

/// The packages whose window can currently receive keys.
pub open spec fn focusable_packages(s: Seq<char>) -> Set<Seq<char>> {
    if pairing_holds(s) {
        Set::new(
            |p: Seq<char>|
                exists|i: int|
                    0 <= i < package_lines(s).len() && #[trigger] package_of(package_lines(s)[i])
                        == Some(p) && contains(keys_lines(s)[i], focus_marker()),
        )
    } else {
        Set::empty()
    }
}

/// Output in which the two kinds of line do not pair up, or a `package=`
/// line names no package, yields no candidate at all.
pub proof fn lemma_unpaired_output_has_no_candidates(s: Seq<char>)
    requires
        package_lines(s).len() != keys_lines(s).len() || exists|i: int|
            0 <= i < package_lines(s).len() && #[trigger] package_of(package_lines(s)[i]) is None,
    ensures
        focusable_packages(s) == Set::<Seq<char>>::empty(),
{
}

/// The first of `cands`, from position `i` on, that `m` configures, with its frame rate.
pub open spec fn first_configured(m: Map<Seq<char>, Fps>, cands: Seq<Seq<char>>, i: int) -> Option<
    (Seq<char>, Fps),
>
    decreases cands.len() - i,
{
    if i < 0 || i >= cands.len() {
        None
    } else if m.contains_key(cands[i]) {
        Some((cands[i], m[cands[i]]))
    } else {
        first_configured(m, cands, i + 1)
    }
}

/// Some window among the first `n` pairs names `p` and can receive keys.
spec fn focused_before(pl: Seq<Seq<char>>, kl: Seq<Seq<char>>, n: int, p: Seq<char>) -> bool {
    exists|q: int| 0 <= q < n && #[trigger] package_of(pl[q]) == Some(p) && contains(kl[q], focus_marker())
}

spec fn lists(out: Seq<String>, p: Seq<char>) -> bool {
    exists|t: int| 0 <= t < out.len() && #[trigger] out[t]@ == p
}

/// The index range of the package named on the line `cs[a..b]`.
fn package_range(cs: &Vec<char>, a: usize, b: usize) -> (r: Option<(usize, usize)>)
    requires
        a <= b <= cs@.len(),
    ensures
        match r {
            Some(p) => p.0 <= p.1 <= cs@.len() && package_of(cs@.subrange(a as int, b as int))
                == Some(cs@.subrange(p.0 as int, p.1 as int)),
            None => package_of(cs@.subrange(a as int, b as int)) is None,
        },
{
    let ghost l = cs@.subrange(a as int, b as int);
    let ghost nonempty = |t: Seq<char>| t.len() > 0;
    let words = split_ranges(cs, a, b, Sep::Whitespace);
    let mut toks: Vec<(usize, usize)> = Vec::new();
    let mut k: usize = 0;
    while k < words.len()
        invariant
            k <= words@.len(),
            a <= b <= cs@.len(),
            nonempty == (|t: Seq<char>| t.len() > 0),
            forall|q: int| 0 <= q < words@.len() ==> a <= #[trigger] words@[q].0 <= words@[q].1 <= b,
            forall|q: int| 0 <= q < toks@.len() ==> a <= #[trigger] toks@[q].0 <= toks@[q].1 <= b,
            pieces(cs@, toks@) == pieces(cs@, words@).take(k as int).filter(nonempty),
        decreases words@.len() - k,
    {
        let ghost ws = pieces(cs@, words@);
        let ghost old_toks = toks@;
        proof {
            assert(ws[k as int] == cs@.subrange(words@[k as int].0 as int, words@[k as int].1 as int));
            assert(ws[k as int].len() == words@[k as int].1 - words@[k as int].0);
            assert(ws.take(k + 1) =~= ws.take(k as int).push(ws[k as int]));
            ws.take(k as int).lemma_filter_push(ws[k as int], nonempty);
        }
        if words[k].0 < words[k].1 {
            toks.push(words[k]);
            proof {
                assert(pieces(cs@, toks@) =~= pieces(cs@, old_toks).push(ws[k as int]));
                assert(forall|q: int| 0 <= q < old_toks.len() ==> #[trigger] toks@[q] == old_toks[q]);
            }
        }
        k = k + 1;
    }
    proof {
        assert(pieces(cs@, words@).take(words@.len() as int) =~= pieces(cs@, words@));
        assert(tokens(l) == pieces(cs@, toks@));
    }
    if toks.len() < 3 {
        return None;
    }
    let (ta, tb) = toks[2];
    proof {
        assert(tokens(l)[2] == cs@.subrange(ta as int, tb as int));
    }
    let parts = split_ranges(cs, ta, tb, Sep::Equals);
    if parts.len() < 2 {
        return None;
    }
    proof {
        assert(pieces(cs@, parts@)[1] == cs@.subrange(parts@[1].0 as int, parts@[1].1 as int));
    }
    Some(parts[1])
}

/// The packages, each once, whose window can currently receive keys, as
/// `dump` reports them.
pub fn focusable_packages_in(dump: &str) -> (r: Vec<String>)
    ensures
        forall|p: Seq<char>|
            focusable_packages(dump@).contains(p) <==> exists|k: int|
                0 <= k < r@.len() && #[trigger] r@[k]@ == p,
        forall|i: int, j: int|
            0 <= i < r@.len() && 0 <= j < r@.len() && i != j ==> #[trigger] r@[i]@ != #[trigger] r@[j]@,
{
    let cs = chars_of(dump);
    proof {
        reveal_strlit("package=");
        reveal_strlit("canReceiveKeys()");
        reveal_strlit("canReceiveKeys()=true");
    }
    let pkg_m = chars_of("package=");
    let keys_m = chars_of("canReceiveKeys()");
    let focus_m = chars_of("canReceiveKeys()=true");
    let lines = split_ranges(&cs, 0, cs.len(), Sep::Newline);
    let ghost ls = pieces(cs@, lines@);
    proof {
        assert(cs@.subrange(0, cs@.len() as int) =~= cs@);
    }
    let ghost pkp = |l: Seq<char>| is_package_line(l);
    let ghost kyp = |l: Seq<char>| is_keys_line(l);
    let mut pkgs: Vec<Option<(usize, usize)>> = Vec::new();
    let mut focus: Vec<bool> = Vec::new();
    let mut k: usize = 0;
    while k < lines.len()
        invariant
            k <= lines@.len(),
            pkp == (|l: Seq<char>| is_package_line(l)),
            kyp == (|l: Seq<char>| is_keys_line(l)),
            ls == pieces(cs@, lines@),
            ls == lines_of(dump@),
            cs@ == dump@,
            pkg_m@ == package_marker(),
            keys_m@ == keys_marker(),
            focus_m@ == focus_marker(),
            forall|q: int| 0 <= q < lines@.len() ==> #[trigger] lines@[q].0 <= lines@[q].1 <= cs@.len(),
            pkgs@.len() == ls.take(k as int).filter(pkp).len(),
            forall|q: int|
                0 <= q < pkgs@.len() ==> match #[trigger] pkgs@[q] {
                    Some(p) => p.0 <= p.1 <= cs@.len() && package_of(ls.take(k as int).filter(pkp)[q])
                        == Some(cs@.subrange(p.0 as int, p.1 as int)),
                    None => package_of(ls.take(k as int).filter(pkp)[q]) is None,
                },
            focus@.len() == ls.take(k as int).filter(kyp).len(),
            forall|q: int|
                0 <= q < focus@.len() ==> #[trigger] focus@[q] == contains(
                    ls.take(k as int).filter(kyp)[q],
                    focus_marker(),
                ),
        decreases lines@.len() - k,
    {
        let (a, b) = lines[k];
        let ghost line = cs@.subrange(a as int, b as int);
        let ghost old_pkgs = pkgs@;
        let ghost old_focus = focus@;
        proof {
            assert(ls[k as int] == line);
            assert(pkp(line) == is_package_line(line));
            assert(kyp(line) == is_keys_line(line));
            assert(ls.take(k + 1) =~= ls.take(k as int).push(line));
            ls.take(k as int).lemma_filter_push(line, pkp);
            ls.take(k as int).lemma_filter_push(line, kyp);
        }
        if range_contains(&cs, a, b, &pkg_m) {
            let p = package_range(&cs, a, b);
            pkgs.push(p);
            proof {
                assert(forall|q: int| 0 <= q < old_pkgs.len() ==> #[trigger] pkgs@[q] == old_pkgs[q]);
            }
        }
        if range_contains(&cs, a, b, &keys_m) {
            let f = range_contains(&cs, a, b, &focus_m);
            focus.push(f);
            proof {
                assert(forall|q: int| 0 <= q < old_focus.len() ==> #[trigger] focus@[q] == old_focus[q]);
            }
        }
        k = k + 1;
    }
    proof {
        assert(ls.take(lines@.len() as int) =~= ls);
        assert(package_lines(dump@) == ls.filter(pkp));
        assert(keys_lines(dump@) == ls.filter(kyp));
    }
    let ghost pl = package_lines(dump@);
    let ghost kl = keys_lines(dump@);
    let mut out: Vec<String> = Vec::new();
    if pkgs.len() != focus.len() {
        proof {
            assert(focusable_packages(dump@) =~= Set::<Seq<char>>::empty());
        }
        return out;
    }
    let mut i: usize = 0;
    while i < pkgs.len()
        invariant
            i <= pkgs@.len(),
            pkgs@.len() == pl.len(),
            pl == package_lines(dump@),
            out@.len() == 0,
            forall|q: int|
                0 <= q < pkgs@.len() ==> match #[trigger] pkgs@[q] {
                    Some(p) => p.0 <= p.1 <= cs@.len() && package_of(pl[q]) == Some(
                        cs@.subrange(p.0 as int, p.1 as int),
                    ),
                    None => package_of(pl[q]) is None,
                },
            forall|q: int| 0 <= q < i ==> #[trigger] pkgs@[q] is Some,
        decreases pkgs@.len() - i,
    {
        if pkgs[i].is_none() {
            proof {
                assert(package_of(pl[i as int]) is None);
                assert(!pairing_holds(dump@));
                assert(focusable_packages(dump@) =~= Set::<Seq<char>>::empty());
            }
            return out;
        }
        i = i + 1;
    }
    proof {
        assert forall|q: int| 0 <= q < pl.len() implies #[trigger] package_of(pl[q]) is Some by {
            assert(pkgs@[q] is Some);
        }
        assert(pairing_holds(dump@));
    }
    let mut i: usize = 0;
    while i < pkgs.len()
        invariant
            i <= pkgs@.len(),
            pkgs@.len() == focus@.len(),
            pkgs@.len() == pl.len(),
            pl.len() == kl.len(),
            cs@ == dump@,
            forall|q: int|
                0 <= q < pkgs@.len() ==> match #[trigger] pkgs@[q] {
                    Some(p) => p.0 <= p.1 <= cs@.len() && package_of(pl[q]) == Some(
                        cs@.subrange(p.0 as int, p.1 as int),
                    ),
                    None => false,
                },
            forall|q: int| 0 <= q < focus@.len() ==> #[trigger] focus@[q] == contains(kl[q], focus_marker()),
            forall|p: Seq<char>| #[trigger] focused_before(pl, kl, i as int, p) <==> lists(out@, p),
            forall|x: int, y: int|
                0 <= x < out@.len() && 0 <= y < out@.len() && x != y ==> #[trigger] out@[x]@
                    != #[trigger] out@[y]@,
        decreases pkgs@.len() - i,
    {
        let ghost old_out = out@;
        let ghost now = focus@[i as int];
        let (a, b) = pkgs[i].unwrap();
        let ghost name_v = cs@.subrange(a as int, b as int);
        proof {
            assert(package_of(pl[i as int]) == Some(name_v));
            assert forall|p: Seq<char>|
                #[trigger] focused_before(pl, kl, i + 1, p) <==> (focused_before(pl, kl, i as int, p) || (
                now && p == name_v)) by {
                if focused_before(pl, kl, i + 1, p) {
                    let q = choose|q: int|
                        0 <= q < i + 1 && #[trigger] package_of(pl[q]) == Some(p) && contains(
                            kl[q],
                            focus_marker(),
                        );
                    if q < i {
                        assert(package_of(pl[q]) == Some(p));
                    }
                }
                if focused_before(pl, kl, i as int, p) {
                    let q = choose|q: int|
                        0 <= q < i && #[trigger] package_of(pl[q]) == Some(p) && contains(
                            kl[q],
                            focus_marker(),
                        );
                    assert(package_of(pl[q]) == Some(p));
                }
                if now && p == name_v {
                    assert(package_of(pl[i as int]) == Some(p));
                }
            }
        }
        if focus[i] {
            let name = dump.substring_char(a, b).to_owned();
            let mut seen = false;
            let mut t: usize = 0;
            while t < out.len()
                invariant
                    t <= out@.len(),
                    seen <==> exists|u: int| 0 <= u < t && #[trigger] out@[u]@ == name@,
                decreases out@.len() - t,
            {
                if out[t] == name {
                    seen = true;
                }
                t = t + 1;
            }
            if !seen {
                out.push(name);
                proof {
                    assert(forall|u: int| 0 <= u < old_out.len() ==> #[trigger] out@[u] == old_out[u]);
                    assert(out@[old_out.len() as int]@ == name_v);
                    assert forall|p: Seq<char>| #[trigger] lists(out@, p) <==> (lists(old_out, p) || p == name_v) by {
                        if lists(out@, p) {
                            let u = choose|u: int| 0 <= u < out@.len() && #[trigger] out@[u]@ == p;
                            if u < old_out.len() {
                                assert(old_out[u]@ == p);
                            }
                        }
                        if lists(old_out, p) {
                            let u = choose|u: int| 0 <= u < old_out.len() && #[trigger] old_out[u]@ == p;
                            assert(out@[u]@ == p);
                        }
                    }
                }
            } else {
                proof {
                    assert(lists(out@, name_v));
                }
            }
        }
        i = i + 1;
    }
    proof {
        assert forall|p: Seq<char>|
            focusable_packages(dump@).contains(p) <==> exists|k: int|
                0 <= k < out@.len() && #[trigger] out@[k]@ == p by {
            assert(focusable_packages(dump@).contains(p) == focused_before(pl, kl, pl.len() as int, p));
            assert(lists(out@, p) == exists|k: int| 0 <= k < out@.len() && #[trigger] out@[k]@ == p);
        }
    }
    out
}

/// The identifiers that a list of candidates holds, in order.
pub open spec fn names(cands: Seq<String>) -> Seq<Seq<char>> {
    cands.map_values(|c: String| c@)
}

/// The first candidate, in the order given, that `list` configures, with
/// its frame rate, copied out of the list.
pub fn pick_game(list: &GameList, cands: &Vec<String>) -> (r: Option<(String, Fps)>)
    requires
        list.wf(),
    ensures
        match first_configured(list@, names(cands@), 0) {
            Some(hit) => r matches Some(got) && got.0@ == hit.0 && got.1 == hit.1,
            None => r is None,
        },
{
    let ghost ns = names(cands@);
    let mut i: usize = 0;
    while i < cands.len()
        invariant
            i <= cands@.len(),
            list.wf(),
            ns == names(cands@),
            first_configured(list@, ns, 0) == first_configured(list@, ns, i as int),
        decreases cands@.len() - i,
    {
        assert(ns[i as int] == cands@[i as int]@);
        match list.get(&cands[i]) {
            Some(fps) => {
                return Some((cands[i].clone(), fps));
            },
            None => {},
        }
        i = i + 1;
    }
    None
}

/// `first_configured` picks a candidate that the mapping configures, and
/// finds none only when no candidate is configured.
pub proof fn lemma_first_configured(m: Map<Seq<char>, Fps>, cands: Seq<Seq<char>>, i: int)
    requires
        0 <= i,
    ensures
        match first_configured(m, cands, i) {
            Some(hit) => m.contains_key(hit.0) && m[hit.0] == hit.1 && exists|k: int|
                i <= k < cands.len() && #[trigger] cands[k] == hit.0,
            None => forall|k: int| i <= k < cands.len() ==> !m.contains_key(#[trigger] cands[k]),
        },
    decreases cands.len() - i,
{
    if i < cands.len() {
        lemma_first_configured(m, cands, i + 1);
        if !m.contains_key(cands[i]) {
            match first_configured(m, cands, i + 1) {
                Some(hit) => {
                    let k = choose|k: int| i + 1 <= k < cands.len() && #[trigger] cands[k] == hit.0;
                    assert(cands[k] == hit.0);
                },
                None => {
                    assert forall|k: int| i <= k < cands.len() implies !m.contains_key(
                        #[trigger] cands[k],
                    ) by {
                        if k > i {
                            assert(i + 1 <= k);
                        }
                    }
                },
            }
        }
    }
}

/// The configured game whose window can currently receive keys, with its
/// target frame rate, as `dump` reports the visible windows. When several
/// such games are configured, which one is returned is left open.
pub fn resolve(list: &GameList, dump: &str) -> (r: Option<(String, Fps)>)
    requires
        list.wf(),
    ensures
        r is None <==> forall|p: Seq<char>|
            #[trigger] focusable_packages(dump@).contains(p) ==> !list@.contains_key(p),
        r matches Some(hit) ==> focusable_packages(dump@).contains(hit.0@) && list@.contains_key(hit.0@)
            && list@[hit.0@] == hit.1,
{
    let cands = focusable_packages_in(dump);
    let r = pick_game(list, &cands);
    proof {
        let ns = names(cands@);
        lemma_first_configured(list@, ns, 0);
        match first_configured(list@, ns, 0) {
            Some(hit) => {
                let k = choose|k: int| 0 <= k < ns.len() && #[trigger] ns[k] == hit.0;
                assert(cands@[k]@ == hit.0);
                assert(focusable_packages(dump@).contains(hit.0));
                assert(list@.contains_key(hit.0));
            },
            None => {
                assert forall|p: Seq<char>|
                    #[trigger] focusable_packages(dump@).contains(p) implies !list@.contains_key(p) by {
                    let k = choose|k: int| 0 <= k < cands@.len() && #[trigger] cands@[k]@ == p;
                    assert(ns[k] == p);
                }
            },
        }
    }
    r
}

} // verus!
