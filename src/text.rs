//! Splitting character sequences, and searching them for a marker.
use vstd::prelude::*;

verus! {

/// What separates the pieces of a split.
#[derive(Clone, Copy, PartialEq, Eq, Debug)]
pub enum Sep {
    /// A line feed.
    Newline,
    /// Any character with the Unicode `White_Space` property.
    Whitespace,
    /// An equals sign.
    Equals,
}

/// The Unicode `White_Space` characters.
pub open spec fn is_unicode_whitespace(c: char) -> bool {
    let u = c as u32;
    (0x9 <= u && u <= 0xd) || u == 0x20 || u == 0x85 || u == 0xa0 || u == 0x1680 || (0x2000 <= u
        && u <= 0x200a) || u == 0x2028 || u == 0x2029 || u == 0x202f || u == 0x205f || u == 0x3000
}

pub open spec fn sep_matches(sep: Sep, c: char) -> bool {
    match sep {
        Sep::Newline => c == '\n',
        Sep::Whitespace => is_unicode_whitespace(c),
        Sep::Equals => c == '=',
    }
}

/// The pieces of `s` between separators, empty ones included; there is
/// always at least one.
pub open spec fn split_on(s: Seq<char>, sep: Sep) -> Seq<Seq<char>>
    decreases s.len(),
{
    if s.len() == 0 {
        seq![Seq::<char>::empty()]
    } else {
        let p = split_on(s.drop_last(), sep);
        if sep_matches(sep, s.last()) {
            p.push(Seq::<char>::empty())
        } else {
            p.update(p.len() - 1, p.last().push(s.last()))
        }
    }
}

/// `m` occurs in `s` as a contiguous run.
pub open spec fn contains(s: Seq<char>, m: Seq<char>) -> bool {
    exists|i: int| 0 <= i && i + m.len() <= s.len() && #[trigger] s.subrange(i, i + m.len()) == m
}

/// The pieces of `cs` that index ranges select.
pub open spec fn pieces(cs: Seq<char>, r: Seq<(usize, usize)>) -> Seq<Seq<char>> {
    r.map_values(|p: (usize, usize)| cs.subrange(p.0 as int, p.1 as int))
}

/// The characters of `s`, in order.
pub fn chars_of(s: &str) -> (r: Vec<char>)
    ensures
        r@ == s@,
{
    broadcast use vstd::string::axiom_spec_iter;

    let mut v: Vec<char> = Vec::new();
    for c in it: s.chars()
        invariant
            v@ == it.seq().take(it.index()),
            it.seq() == s@,
    {
        v.push(c);
        proof {
            assert(it.seq().take(it.index() + 1) =~= it.seq().take(it.index()).push(c));
        }
    }
    proof {
        assert(v@.len() == s@.len());
    }
    v
}

pub fn is_sep(sep: Sep, c: char) -> (r: bool)
    ensures
        r == sep_matches(sep, c),
{
    match sep {
        Sep::Newline => c == '\n',
        Sep::Equals => c == '=',
        Sep::Whitespace => {
            let u = c as u32;
            (0x9 <= u && u <= 0xd) || u == 0x20 || u == 0x85 || u == 0xa0 || u == 0x1680 || (0x2000
                <= u && u <= 0x200a) || u == 0x2028 || u == 0x2029 || u == 0x202f || u == 0x205f
                || u == 0x3000
        },
    }
}

/// Splits `cs[a..b]` at each separator, giving the index range of each piece.
pub fn split_ranges(cs: &Vec<char>, a: usize, b: usize, sep: Sep) -> (r: Vec<(usize, usize)>)
    requires
        a <= b <= cs@.len(),
    ensures
        forall|k: int| 0 <= k < r@.len() ==> a <= #[trigger] r@[k].0 <= r@[k].1 <= b,
        pieces(cs@, r@) == split_on(cs@.subrange(a as int, b as int), sep),
{
    let mut out: Vec<(usize, usize)> = Vec::new();
    let mut start: usize = a;
    let mut j: usize = a;
    proof {
        assert(cs@.subrange(a as int, a as int) =~= Seq::<char>::empty());
        assert(pieces(cs@, out@).push(cs@.subrange(start as int, j as int)) =~= seq![Seq::<char>::empty()]);
    }
    while j < b
        invariant
            a <= start <= j <= b <= cs@.len(),
            forall|k: int| 0 <= k < out@.len() ==> a <= #[trigger] out@[k].0 <= out@[k].1 <= start,
            pieces(cs@, out@).push(cs@.subrange(start as int, j as int)) == split_on(
                cs@.subrange(a as int, j as int),
                sep,
            ),
        decreases b - j,
    {
        let ghost prev = split_on(cs@.subrange(a as int, j as int), sep);
        let ghost old_out = out@;
        let c = cs[j];
        proof {
            assert(cs@.subrange(a as int, j + 1).drop_last() =~= cs@.subrange(a as int, j as int));
            assert(cs@.subrange(a as int, j + 1).last() == c);
        }
        if is_sep(sep, c) {
            out.push((start, j));
            proof {
                assert(pieces(cs@, out@) =~= pieces(cs@, old_out).push(cs@.subrange(start as int, j as int)));
                assert(cs@.subrange(j + 1, j + 1) =~= Seq::<char>::empty());
                assert(forall|k: int| 0 <= k < old_out.len() ==> #[trigger] out@[k] == old_out[k]);
                assert(out@[old_out.len() as int] == (start, j));
                assert forall|k: int| 0 <= k < out@.len() implies a <= #[trigger] out@[k].0 <= out@[k].1
                    <= j + 1 by {
                    if k < old_out.len() {
                        assert(out@[k] == old_out[k]);
                    }
                }
            }
            start = j + 1;
        } else {
            proof {
                assert(cs@.subrange(start as int, j + 1) =~= cs@.subrange(start as int, j as int).push(c));
                assert(pieces(cs@, out@).push(cs@.subrange(start as int, j + 1)) =~= prev.update(
                    prev.len() - 1,
                    prev.last().push(c),
                ));
            }
        }
        j = j + 1;
    }
    out.push((start, b));
    proof {
        assert(pieces(cs@, out@) =~= pieces(cs@, out@.drop_last()).push(cs@.subrange(start as int, b as int)));
    }
    out
}

/// Whether `m` occurs in `cs[a..b]`.
pub fn range_contains(cs: &Vec<char>, a: usize, b: usize, m: &Vec<char>) -> (r: bool)
    requires
        a <= b <= cs@.len(),
    ensures
        r == contains(cs@.subrange(a as int, b as int), m@),
{
    let ghost s = cs@.subrange(a as int, b as int);
    if m.len() > b - a {
        return false;
    }
    let last: usize = b - m.len();
    let mut i: usize = a;
    while i <= last
        invariant
            a <= i <= last + 1,
            last + m@.len() == b,
            b <= cs@.len(),
            s == cs@.subrange(a as int, b as int),
            forall|p: int| 0 <= p < i - a ==> #[trigger] s.subrange(p, p + m@.len()) != m@,
        decreases last + 1 - i,
    {
        let mut k: usize = 0;
        let mut same = true;
        while k < m.len()
            invariant
                i <= last,
                last + m@.len() == b,
                b <= cs@.len(),
                k <= m@.len(),
                same <==> forall|q: int| 0 <= q < k ==> cs@[i + q] == #[trigger] m@[q],
            decreases m@.len() - k,
        {
            if cs[i + k] != m[k] {
                same = false;
            }
            k = k + 1;
        }
        proof {
            let p = i - a;
            assert(forall|q: int| 0 <= q < m@.len() ==> #[trigger] s.subrange(p, p + m@.len())[q] == cs@[i + q]);
            if same {
                assert(s.subrange(p, p + m@.len()) =~= m@);
            } else {
                let q = choose|q: int| 0 <= q < m@.len() && cs@[i + q] != m@[q];
                assert(s.subrange(p, p + m@.len())[q] != m@[q]);
            }
        }
        if same {
            return true;
        }
        i = i + 1;
    }
    false
}

} // verus!
