//! The suffix-color configuration: parsing the `suffix=color` list and
//! looking up the first suffix that matches a name.
use vstd::prelude::*;

use crate::text::ends_with_rep;
use crate::text::str_ends_with;
use crate::text::str_eq;

verus! {

/// Index of the first occurrence of `c` in `s`, or `s.len()` if there is
/// none.
pub open spec fn find_char(s: Seq<char>, c: char) -> nat
    decreases s.len(),
{
    if s.len() == 0 {
        0
    } else if s[0] == c {
        0
    } else {
        1 + find_char(s.drop_first(), c)
    }
}

/// `find_char` names the first occurrence: everything before it differs
/// from `c`, and it is in range exactly when `c` occurs at all.
pub proof fn lemma_find_char_at(t: Seq<char>, c: char, i: int)
    requires
        0 <= i <= t.len(),
        forall|k: int| 0 <= k < i ==> t[k] != c,
        i < t.len() ==> t[i] == c,
    ensures
        find_char(t, c) == i,
    decreases t.len(),
{
    if t.len() > 0 && i > 0 {
        assert(forall|k: int| 1 <= k < t.len() ==> t.drop_first()[k - 1] == t[k]);
        lemma_find_char_at(t.drop_first(), c, i - 1);
    }
}

/// The comma-separated segments of `s`; an empty text is one empty segment.
pub open spec fn split_on(s: Seq<char>, c: char) -> Seq<Seq<char>>
    decreases s.len(),
{
    let i = find_char(s, c);
    if i >= s.len() {
        seq![s]
    } else {
        seq![s.take(i as int)] + split_on(s.skip(i + 1 as int), c)
    }
}

/// A segment is well-formed when it holds exactly one `=`.
pub open spec fn seg_ok(seg: Seq<char>) -> bool {
    let i = find_char(seg, '=');
    i < seg.len() && find_char(seg.skip(i + 1 as int), '=') >= seg.len() - i - 1
}

/// The suffix and color of a well-formed segment: the text on either side
/// of its `=`.
pub open spec fn color_pair_of(seg: Seq<char>) -> (Seq<char>, Seq<char>) {
    let i = find_char(seg, '=');
    (seg.take(i as int), seg.skip(i + 1 as int))
}

/// Insert a binding, replacing the value of an already-present suffix.
pub open spec fn pairs_insert(
    m: Seq<(Seq<char>, Seq<char>)>,
    k: Seq<char>,
    v: Seq<char>,
) -> Seq<(Seq<char>, Seq<char>)>
    decreases m.len(),
{
    if m.len() == 0 {
        seq![(k, v)]
    } else if m[0].0 == k {
        seq![(k, v)] + m.drop_first()
    } else {
        seq![m[0]] + pairs_insert(m.drop_first(), k, v)
    }
}

/// The mapping that a list of well-formed segments builds, first to last.
pub open spec fn build_pairs(segs: Seq<Seq<char>>) -> Seq<(Seq<char>, Seq<char>)>
    decreases segs.len(),
{
    if segs.len() == 0 {
        Seq::empty()
    } else {
        let p = color_pair_of(segs.last());
        pairs_insert(build_pairs(segs.drop_last()), p.0, p.1)
    }
}

/// The suffix-to-color mapping, held as insertion-ordered pairs with unique
/// suffixes.
#[derive(Debug)]
pub struct SuffixColors {
    pub pairs: Vec<(String, String)>,
}

impl View for SuffixColors {
    type V = Seq<(Seq<char>, Seq<char>)>;

    open spec fn view(&self) -> Seq<(Seq<char>, Seq<char>)> {
        Seq::new(self.pairs@.len(), |i: int| (self.pairs@[i].0@, self.pairs@[i].1@))
    }
}

/// `pairs_insert` updates the first binding of an already-present suffix in
/// place, and appends a new suffix at the end.
proof fn lemma_pairs_insert_at(m: Seq<(Seq<char>, Seq<char>)>, k: Seq<char>, v: Seq<char>, j: int)
    requires
        0 <= j <= m.len(),
        forall|h: int| 0 <= h < j ==> m[h].0 != k,
        j < m.len() ==> m[j].0 == k,
    ensures
        pairs_insert(m, k, v) == if j == m.len() {
            m.push((k, v))
        } else {
            m.update(j, (k, v))
        },
    decreases m.len(),
{
    if m.len() == 0 {
        assert(pairs_insert(m, k, v) =~= m.push((k, v)));
    } else if m[0].0 == k {
        assert(j == 0);
        assert(pairs_insert(m, k, v) =~= m.update(0, (k, v)));
    } else {
        assert(forall|h: int| 1 <= h < m.len() ==> m.drop_first()[h - 1] == m[h]);
        lemma_pairs_insert_at(m.drop_first(), k, v, j - 1);
        if j == m.len() {
            assert(pairs_insert(m, k, v) =~= m.push((k, v)));
        } else {
            assert(pairs_insert(m, k, v) =~= m.update(j, (k, v)));
        }
    }
}

impl SuffixColors {
    /// The empty mapping.
    pub fn new() -> (r: SuffixColors)
        ensures
            r@ == Seq::<(Seq<char>, Seq<char>)>::empty(),
    {
        let r = SuffixColors { pairs: Vec::new() };
        proof {
            assert(r@ =~= Seq::<(Seq<char>, Seq<char>)>::empty());
        }
        r
    }

    /// Bind `k` to `v`, replacing the value of an already-present suffix.
    pub fn insert(&mut self, k: String, v: String)
        ensures
            final(self)@ == pairs_insert(old(self)@, k@, v@),
    {
        let n = self.pairs.len();
        let mut j: usize = 0;
        while j < n
            invariant
                j <= n,
                n == self.pairs@.len(),
                *self == *old(self),
                forall|h: int| 0 <= h < j ==> old(self)@[h].0 != k@,
            decreases n - j,
        {
            if str_eq(self.pairs[j].0.as_str(), k.as_str()) {
                proof {
                    lemma_pairs_insert_at(old(self)@, k@, v@, j as int);
                }
                self.pairs.set(j, (k, v));
                proof {
                    assert(self@ =~= pairs_insert(old(self)@, k@, v@));
                }
                return ;
            }
            j = j + 1;
        }
        proof {
            lemma_pairs_insert_at(old(self)@, k@, v@, n as int);
        }
        self.pairs.push((k, v));
        proof {
            assert(self@ =~= pairs_insert(old(self)@, k@, v@));
        }
    }
}

/// First index in `s[from..to)` holding `c`, or `to` if there is none.
fn scan_to(s: &str, from: usize, to: usize, c: char) -> (q: usize)
    requires
        from <= to,
        to <= s@.len(),
    ensures
        from <= q <= to,
        forall|k: int| from <= k < q ==> s@[k] != c,
        q < to ==> s@[q as int] == c,
        find_char(s@.subrange(from as int, to as int), c) == q - from,
{
    let mut q: usize = from;
    while q < to
        invariant
            from <= q <= to,
            to <= s@.len(),
            forall|k: int| from <= k < q ==> s@[k] != c,
        decreases to - q,
    {
        if s.get_char(q) == c {
            proof {
                let t = s@.subrange(from as int, to as int);
                assert(forall|k: int| 0 <= k < t.len() ==> t[k] == s@[from + k]);
                lemma_find_char_at(t, c, q - from);
            }
            return q;
        }
        q = q + 1;
    }
    proof {
        let t = s@.subrange(from as int, to as int);
        assert(forall|k: int| 0 <= k < t.len() ==> t[k] == s@[from + k]);
        lemma_find_char_at(t, c, (to - from) as int);
    }
    q
}

/// Parse a `suffix=color,...` list into the suffix-to-color mapping.
/// Every comma-separated segment must hold exactly one `=`; the first
/// malformed segment is reported and nothing is built.
pub fn parse_file_colors(s: &str) -> (r: Result<SuffixColors, String>)
    ensures
        ({
            let segs = split_on(s@, ',');
            match r {
                Result::Ok(sc) => (forall|k: int| 0 <= k < segs.len() ==> seg_ok(segs[k]))
                    && sc@ == build_pairs(segs),
                Result::Err(e) => exists|b: int|
                    0 <= b < segs.len() && !seg_ok(segs[b]) && (forall|k: int|
                        0 <= k < b ==> seg_ok(segs[k])) && e@ == "Invalid format: "@ + segs[b],
            }
        }),
{
    let n = s.unicode_len();
    let mut sc = SuffixColors::new();
    let ghost mut done: Seq<Seq<char>> = Seq::empty();
    let mut p: usize = 0;
    let mut finished = false;
    proof {
        assert(s@.subrange(0, n as int) =~= s@);
        assert(done + split_on(s@.subrange(0, n as int), ',') =~= split_on(s@, ','));
    }
    while !finished
        invariant
            n == s@.len(),
            p <= n,
            !finished ==> split_on(s@, ',') == done + split_on(
                s@.subrange(p as int, n as int),
                ',',
            ),
            finished ==> split_on(s@, ',') == done,
            forall|k: int| 0 <= k < done.len() ==> seg_ok(done[k]),
            sc@ == build_pairs(done),
        decreases n - p + (if finished {
            0int
        } else {
            1int
        }),
    {
        let ghost rest = s@.subrange(p as int, n as int);
        let q = scan_to(s, p, n, ',');
        let ghost seg = s@.subrange(p as int, q as int);
        proof {
            if q < n {
                assert(rest.take((q - p) as int) =~= seg);
                assert(rest.skip(q - p + 1) =~= s@.subrange(q + 1, n as int));
                assert(split_on(rest, ',') == seq![seg] + split_on(
                    s@.subrange(q + 1, n as int),
                    ',',
                ));
            } else {
                assert(rest =~= seg);
                assert(split_on(rest, ',') == seq![seg]);
            }
            assert((done + split_on(rest, ','))[done.len() as int] == seg);
        }
        // Exactly one '=' must stand inside the segment.
        let e = scan_to(s, p, q, '=');
        proof {
            assert(find_char(seg, '=') == e - p);
        }
        if e == q {
            // No '=' at all: the segment is malformed.
            proof {
                assert(!seg_ok(seg));
                let segs = split_on(s@, ',');
                assert(segs[done.len() as int] == seg);
            }
            return Result::Err("Invalid format: ".to_owned().concat(s.substring_char(p, q)));
        }
        let e2 = scan_to(s, e + 1, q, '=');
        if e2 < q {
            // A second '=': malformed as well.
            proof {
                assert(seg.skip(e - p + 1) =~= s@.subrange(e + 1, q as int));
                assert(find_char(seg.skip(e - p + 1), '=') == e2 - e - 1);
                assert(!seg_ok(seg));
                let segs = split_on(s@, ',');
                assert(segs[done.len() as int] == seg);
            }
            return Result::Err("Invalid format: ".to_owned().concat(s.substring_char(p, q)));
        }
        proof {
            assert(seg.skip(e - p + 1) =~= s@.subrange(e + 1, q as int));
            assert(find_char(seg.skip(e - p + 1), '=') == q - e - 1);
            assert(seg_ok(seg));
        }
        let suffix = s.substring_char(p, e).to_owned();
        let color = s.substring_char(e + 1, q).to_owned();
        proof {
            assert(seg.take((e - p) as int) =~= suffix@);
            assert(color_pair_of(seg) == (suffix@, color@));
        }
        sc.insert(suffix, color);
        proof {
            let prev = done;
            done = done.push(seg);
            assert(done.last() == seg);
            assert(done.drop_last() =~= prev);
            assert(build_pairs(done) == sc@);
        }
        if q == n {
            finished = true;
            proof {
                assert(split_on(s@, ',') =~= done);
            }
        } else {
            p = q + 1;
            proof {
                assert(split_on(s@, ',') =~= done + split_on(
                    s@.subrange(p as int, n as int),
                    ',',
                ));
            }
        }
    }
    Result::Ok(sc)
}

/// The color of the first configured suffix that `name` ends with, if any.
pub open spec fn first_match(
    pairs: Seq<(Seq<char>, Seq<char>)>,
    name: Seq<char>,
) -> Option<Seq<char>>
    decreases pairs.len(),
{
    if pairs.len() == 0 {
        Option::None
    } else if ends_with_rep(name, pairs[0].0) {
        Option::Some(pairs[0].1)
    } else {
        first_match(pairs.drop_first(), name)
    }
}

/// Find the color configured for the first suffix that `name` ends with.
pub fn find_color<'a>(sc: &'a SuffixColors, name: &str) -> (r: Option<&'a String>)
    ensures
        match r {
            Option::Some(c) => first_match(sc@, name@) == Option::Some(c@),
            Option::None => first_match(sc@, name@) is None,
        },
{
    let n = sc.pairs.len();
    proof {
        assert(sc@.skip(0) =~= sc@);
    }
    let mut k: usize = 0;
    while k < n
        invariant
            k <= n,
            n == sc.pairs@.len(),
            first_match(sc@, name@) == first_match(sc@.skip(k as int), name@),
        decreases n - k,
    {
        if str_ends_with(name, sc.pairs[k].0.as_str()) {
            proof {
                assert(sc@.skip(k as int)[0] == sc@[k as int]);
            }
            return Option::Some(&sc.pairs[k].1);
        }
        proof {
            assert(sc@.skip(k as int)[0] == sc@[k as int]);
            assert(sc@.skip(k as int).drop_first() =~= sc@.skip(k + 1));
        }
        k = k + 1;
    }
    proof {
        assert(sc@.skip(n as int).len() == 0);
    }
    Option::None
}

} // verus!
