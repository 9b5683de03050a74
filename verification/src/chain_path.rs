use vstd::prelude::*;

use crate::key_index::KeyIndex;

verus! {

/// Errors produced while reading one segment of a derivation path.
#[derive(Clone, Debug, Copy, PartialEq, Eq, Structural)]
pub enum Error {
    /// The segment is not the master marker and not a decimal index.
    Invalid,
    /// The segment is empty.
    Blank,
    /// The index value does not fit the 31-bit key-index range.
    KeyIndexOutOfRange,
}

/// One parsed element of a derivation path: the master marker, or a child
/// key index.
#[derive(Debug, PartialEq, Eq, Structural)]
pub enum SubPath {
    Root,
    Child(KeyIndex),
}

/// Position of the first separator `/` in `s`, or `s.len()` when `s` has
/// no separator.
pub open spec fn sep_pos(s: Seq<char>) -> nat
    decreases s.len(),
{
    if s.len() == 0 {
        0
    } else if s[0] == '/' {
        0
    } else {
        1 + sep_pos(s.subrange(1, s.len() as int))
    }
}

/// All `/`-separated pieces of `s`, in order. `n` separators give `n + 1`
/// pieces; an empty input gives one empty piece.
pub open spec fn split_path(s: Seq<char>) -> Seq<Seq<char>>
    decreases s.len(),
{
    let j = sep_pos(s);
    if j >= s.len() {
        seq![s]
    } else {
        seq![s.subrange(0, j as int)] + split_path(s.subrange(j as int + 1, s.len() as int))
    }
}

/// The segments of a path string, with a single trailing separator
/// producing no trailing empty segment, and an empty string producing no
/// segments at all.
pub open spec fn segments(s: Seq<char>) -> Seq<Seq<char>> {
    if s.len() == 0 {
        Seq::empty()
    } else if s.last() == '/' {
        split_path(s.drop_last())
    } else {
        split_path(s)
    }
}

pub open spec fn is_digit(c: char) -> bool {
    '0' <= c && c <= '9'
}

pub open spec fn digit_val(c: char) -> nat {
    (c as u32 - 48) as nat
}

pub open spec fn all_digits(s: Seq<char>) -> bool {
    forall|i: int| 0 <= i < s.len() ==> is_digit(#[trigger] s[i])
}

/// Numeric value of a digit string, most significant digit first.
pub open spec fn dec_val(s: Seq<char>) -> nat
    decreases s.len(),
{
    if s.len() == 0 {
        0
    } else {
        dec_val(s.drop_last()) * 10 + digit_val(s.last())
    }
}

/// A segment parses as an unsigned 32-bit decimal number exactly when it
/// is non-empty, all digits, and its value fits in 32 bits.
pub open spec fn is_u32_decimal(s: Seq<char>) -> bool {
    s.len() > 0 && all_digits(s) && dec_val(s) < 0x1_0000_0000
}

pub open spec fn is_hardened_marker(c: char) -> bool {
    c == '\'' || c == 'H'
}

/// How one path segment is read: the master marker gives `Root`; an empty
/// segment is `Blank`; a decimal with a hardened marker gives a hardened
/// child and a plain decimal a normal child, each rejected with
/// `KeyIndexOutOfRange` when the value reaches 2^31; everything else is
/// `Invalid`. Each segment is read on its own: the master marker is
/// recognized in any position, and enforcing that it stands first is the
/// caller's concern.
pub open spec fn parse_segment(seg: Seq<char>) -> Result<SubPath, Error> {
    if seg == seq!['m'] {
        Ok(SubPath::Root)
    } else if seg.len() == 0 {
        Err(Error::Blank)
    } else if is_hardened_marker(seg.last()) {
        let digits = seg.drop_last();
        if is_u32_decimal(digits) {
            if dec_val(digits) < 0x8000_0000 {
                Ok(SubPath::Child(KeyIndex::Hardened((dec_val(digits) + 0x8000_0000) as u32)))
            } else {
                Err(Error::KeyIndexOutOfRange)
            }
        } else {
            Err(Error::Invalid)
        }
    } else {
        if is_u32_decimal(seg) {
            if dec_val(seg) < 0x8000_0000 {
                Ok(SubPath::Child(KeyIndex::Normal(dec_val(seg) as u32)))
            } else {
                Err(Error::KeyIndexOutOfRange)
            }
        } else {
            Err(Error::Invalid)
        }
    }
}

/// The full reading of a path string: every segment parsed in order.
pub open spec fn path_parse(s: Seq<char>) -> Seq<Result<SubPath, Error>> {
    segments(s).map_values(|seg: Seq<char>| parse_segment(seg))
}

/// A path is valid when every one of its segments parses.
pub open spec fn path_valid(s: Seq<char>) -> bool {
    forall|i: int| 0 <= i < segments(s).len() ==> #[trigger] path_parse(s)[i] is Ok
}

proof fn lemma_sep_pos_bounds(s: Seq<char>)
    ensures
        sep_pos(s) <= s.len(),
        forall|i: int| 0 <= i < sep_pos(s) ==> s[i] != '/',
        sep_pos(s) < s.len() ==> s[sep_pos(s) as int] == '/',
    decreases s.len(),
{
    if s.len() == 0 {
    } else if s[0] == '/' {
    } else {
        let t = s.subrange(1, s.len() as int);
        lemma_sep_pos_bounds(t);
        assert forall|i: int| 0 <= i < sep_pos(s) implies s[i] != '/' by {
            if i > 0 {
                assert(t[i - 1] != '/');
            }
        }
    }
}

proof fn lemma_sep_pos_is(s: Seq<char>, m: int)
    requires
        0 <= m <= s.len(),
        forall|i: int| 0 <= i < m ==> s[i] != '/',
        m < s.len() ==> s[m] == '/',
    ensures
        sep_pos(s) == m,
    decreases s.len(),
{
    if s.len() == 0 {
    } else if m == 0 {
    } else {
        assert(s[0] != '/');
        let t = s.subrange(1, s.len() as int);
        assert forall|i: int| 0 <= i < m - 1 implies t[i] != '/' by {
            assert(t[i] == s[i + 1]);
        }
        lemma_sep_pos_is(t, m - 1);
    }
}

proof fn lemma_split_path_len(s: Seq<char>)
    ensures
        split_path(s).len() >= 1,
    decreases s.len(),
{
    lemma_sep_pos_bounds(s);
}

proof fn lemma_segments_nonempty(s: Seq<char>)
    requires
        s.len() > 0,
    ensures
        segments(s).len() >= 1,
{
    if s.last() == '/' {
        lemma_split_path_len(s.drop_last());
    } else {
        lemma_split_path_len(s);
    }
}

/// Peeling one segment off the front of a non-empty path: the part before
/// the first separator is the first segment, and the rest of the segments
/// are the segments of the part after it.
proof fn lemma_segments_step(t: Seq<char>)
    requires
        t.len() > 0,
    ensures
        sep_pos(t) < t.len() ==> segments(t) == seq![t.subrange(0, sep_pos(t) as int)]
            + segments(t.subrange(sep_pos(t) as int + 1, t.len() as int)),
        sep_pos(t) >= t.len() ==> segments(t) == seq![t],
{
    lemma_sep_pos_bounds(t);
    let m = sep_pos(t) as int;
    let n = t.len() as int;
    if m >= n {
        assert(t.last() != '/');
        assert(segments(t) == split_path(t));
        assert(split_path(t) == seq![t]);
    } else if t.last() == '/' {
        let dl = t.drop_last();
        assert(segments(t) == split_path(dl));
        if m == n - 1 {
            assert(dl =~= t.subrange(0, m));
            lemma_sep_pos_is(dl, m);
            assert(split_path(dl) == seq![dl]);
            let u = t.subrange(m + 1, n);
            assert(u.len() == 0);
            assert(segments(u) == Seq::<Seq<char>>::empty());
            assert(seq![t.subrange(0, m)] + segments(u) =~= seq![dl]);
        } else {
            // The first separator of the path without its final character
            // is still at m.
            assert forall|i: int| 0 <= i < m implies dl[i] != '/' by {
                assert(dl[i] == t[i]);
            }
            assert(dl[m] == t[m]);
            lemma_sep_pos_is(dl, m);
            assert(split_path(dl) == seq![dl.subrange(0, m)] + split_path(
                dl.subrange(m + 1, dl.len() as int),
            ));
            assert(dl.subrange(0, m) =~= t.subrange(0, m));
            let u = t.subrange(m + 1, n);
            assert(u.len() > 0);
            assert(u.last() == t.last());
            assert(segments(u) == split_path(u.drop_last()));
            assert(dl.subrange(m + 1, dl.len() as int) =~= u.drop_last());
        }
    } else {
        assert(segments(t) == split_path(t));
        assert(split_path(t) == seq![t.subrange(0, m)] + split_path(t.subrange(m + 1, n)));
        let u = t.subrange(m + 1, n);
        assert(t[n - 1] != '/');
        assert(m != n - 1);
        assert(u.len() > 0);
        assert(u.last() == t.last());
        assert(segments(u) == split_path(u));
    }
}

/// Appending digits never lowers the value of a digit string.
proof fn lemma_dec_val_prefix(s: Seq<char>, i: int)
    requires
        0 <= i <= s.len(),
    ensures
        dec_val(s.subrange(0, i)) <= dec_val(s),
    decreases s.len() - i,
{
    if i < s.len() {
        let p = s.subrange(0, i);
        let q = s.subrange(0, i + 1);
        assert(q.drop_last() =~= p);
        assert(dec_val(q) == dec_val(p) * 10 + digit_val(q.last()));
        assert(dec_val(p) * 10 >= dec_val(p)) by (nonlinear_arith);
        lemma_dec_val_prefix(s, i + 1);
        assert(s.subrange(0, s.len() as int) =~= s);
    } else {
        assert(s.subrange(0, i) =~= s);
    }
}

/// A string-backed derivation path, semantically an ordered sequence of
/// `SubPath` segments separated by `/`.
#[derive(Debug)]
pub struct ChainPath {
    path: String,
}

impl View for ChainPath {
    type V = Seq<char>;

    closed spec fn view(&self) -> Seq<char> {
        self.path@
    }
}

impl Clone for ChainPath {
    fn clone(&self) -> (r: Self)
        ensures
            r@ == self@,
    {
        ChainPath { path: self.path.clone() }
    }
}

impl PartialEq for ChainPath {
    fn eq(&self, other: &Self) -> (r: bool) {
        self.path == other.path
    }
}

impl Eq for ChainPath {

}

impl vstd::std_specs::cmp::PartialEqSpecImpl for ChainPath {
    open spec fn obeys_eq_spec() -> bool {
        true
    }

    open spec fn eq_spec(&self, other: &ChainPath) -> bool {
        self@ == other@
    }
}

impl ChainPath {
    pub fn new(path: String) -> (r: ChainPath)
        ensures
            r@ == path@,
    {
        ChainPath { path }
    }

    /// An iterator over the path's segments, from the root marker to the
    /// child indices; each call to `next` yields the reading of one
    /// segment.
    pub fn iter(&self) -> (r: Iter<'_>)
        ensures
            r.wf(),
            r.path_view() == self@,
            r.emitted() == 0,
    {
        let r = Iter { path: self.path.as_str(), pos: 0, count: Ghost(0nat) };
        proof {
            let s = r.path@;
            if s.len() > 0 {
                assert(s.subrange(0, s.len() as int) =~= s);
                assert(segments(s).skip(0) =~= segments(s));
            }
        }
        r
    }

    pub fn into_string(self) -> (r: String)
        ensures
            r@ == self@,
    {
        self.path
    }

    /// The path in its text form, exactly as it was given.
    pub fn to_string(&self) -> (r: &str)
        ensures
            r@ == self@,
    {
        self.path.as_str()
    }
}

impl From<String> for ChainPath {
    fn from(path: String) -> (r: ChainPath) {
        ChainPath { path }
    }
}

impl vstd::std_specs::convert::FromSpecImpl<String> for ChainPath {
    open spec fn obeys_from_spec() -> bool {
        true
    }

    closed spec fn from_spec(path: String) -> ChainPath {
        ChainPath { path }
    }
}

/// The text of the path the segments stand for: the segments joined by
/// the separator.
pub open spec fn join_segments(segs: Seq<Seq<char>>) -> Seq<char>
    decreases segs.len(),
{
    if segs.len() == 0 {
        Seq::empty()
    } else if segs.len() == 1 {
        segs[0]
    } else {
        join_segments(segs.drop_last()) + seq!['/'] + segs.last()
    }
}

proof fn lemma_join_prepend(x: Seq<char>, ys: Seq<Seq<char>>)
    requires
        ys.len() >= 1,
    ensures
        join_segments(seq![x] + ys) == x + seq!['/'] + join_segments(ys),
    decreases ys.len(),
{
    let segs = seq![x] + ys;
    if ys.len() == 1 {
        assert(segs.drop_last() =~= seq![x]);
        assert(segs.last() == ys[0]);
        assert(join_segments(seq![x]) == x);
    } else {
        assert(segs.drop_last() =~= seq![x] + ys.drop_last());
        lemma_join_prepend(x, ys.drop_last());
        assert(x + seq!['/'] + join_segments(ys.drop_last()) + seq!['/'] + ys.last() =~= x
            + seq!['/'] + (join_segments(ys.drop_last()) + seq!['/'] + ys.last()));
    }
}

proof fn lemma_join_split(s: Seq<char>)
    ensures
        join_segments(split_path(s)) == s,
    decreases s.len(),
{
    lemma_sep_pos_bounds(s);
    let j = sep_pos(s) as int;
    if j >= s.len() {
        assert(split_path(s) == seq![s]);
    } else {
        let rest = s.subrange(j + 1, s.len() as int);
        lemma_join_split(rest);
        lemma_split_path_len(rest);
        lemma_join_prepend(s.subrange(0, j), split_path(rest));
        assert(s.subrange(0, j) + seq!['/'] + rest =~= s);
    }
}

/// Parsing loses nothing: joining the segments of a path that does not
/// end in a separator reproduces the path exactly.
pub proof fn lemma_join_segments_round_trip(p: Seq<char>)
    requires
        p.len() == 0 || p.last() != '/',
    ensures
        join_segments(segments(p)) == p,
{
    if p.len() > 0 {
        lemma_join_split(p);
    }
}

/// Round trip: a `ChainPath` stores the exact string it was built from
/// and never reconstructs it, so formatting a parsed path reproduces its
/// input byte for byte, in particular for every valid path string; and
/// for a path without a trailing separator even rebuilding the text from
/// the parsed segments gives the same string.
pub proof fn lemma_format_round_trip(p: Seq<char>, c: ChainPath)
    requires
        path_valid(p),
        c@ == p,
    ensures
        c@ == p,
        p.len() == 0 || p.last() != '/' ==> join_segments(segments(p)) == p,
{
    if p.len() == 0 || p.last() != '/' {
        lemma_join_segments_round_trip(p);
    }
}

/// A lazy segment iterator over a `ChainPath`. It is restartable only by
/// deriving a fresh iterator from the path.
pub struct Iter<'a> {
    path: &'a str,
    pos: usize,
    count: Ghost<nat>,
}

impl<'a> Iter<'a> {
    /// The text this iterator walks.
    pub closed spec fn path_view(self) -> Seq<char> {
        self.path@
    }

    /// How many segments have been yielded so far.
    pub closed spec fn emitted(self) -> nat {
        self.count@
    }

    /// The iterator's position is at a segment boundary and its count
    /// agrees with the segments already passed.
    pub closed spec fn wf(self) -> bool {
        let s = self.path@;
        &&& self.pos <= s.len()
        &&& if self.pos < s.len() {
            &&& (self.pos == 0 || s[self.pos - 1] == '/')
            &&& self.count@ <= segments(s).len()
            &&& segments(s).skip(self.count@ as int) == segments(
                s.subrange(self.pos as int, s.len() as int),
            )
        } else {
            self.count@ == segments(s).len()
        }
    }

    /// Yields the reading of the next segment, or `None` when the path is
    /// exhausted.
    pub fn next(&mut self) -> (r: Option<Result<SubPath, Error>>)
        requires
            old(self).wf(),
        ensures
            final(self).wf(),
            final(self).path_view() == old(self).path_view(),
            ({
                let ps = path_parse(old(self).path_view());
                let k = old(self).emitted() as int;
                if k < ps.len() {
                    r == Some(ps[k]) && final(self).emitted() == k + 1
                } else {
                    r is None && final(self).emitted() == k
                }
            }),
    {
        let ghost s = self.path@;
        let ghost k = self.count@;
        let n = self.path.unicode_len();
        if self.pos >= n {
            return None;
        }
        let ghost t = s.subrange(self.pos as int, s.len() as int);
        proof {
            lemma_segments_nonempty(t);
            assert(segments(s).skip(k as int).len() >= 1);
            assert(k < segments(s).len());
        }
        let mut j: usize = self.pos;
        while j < n && self.path.get_char(j) != '/'
            invariant
                self.path@ == s,
                self.pos <= j <= n,
                n == s.len(),
                self.pos < s.len(),
                forall|i: int| self.pos <= i < j ==> s[i] != '/',
            decreases n - j,
        {
            j += 1;
        }
        let ghost m = j - self.pos;
        proof {
            assert forall|i: int| 0 <= i < m implies t[i] != '/' by {
                assert(t[i] == s[self.pos + i]);
            }
            if j < n {
                assert(t[m as int] == s[j as int]);
            }
            lemma_sep_pos_is(t, m as int);
            lemma_segments_step(t);
        }
        let seg = self.path.substring_char(self.pos, j);
        proof {
            assert(seg@ =~= t.subrange(0, m as int));
            if m < t.len() {
                assert(segments(s).skip(k as int)[0] == seg@);
                assert(segments(s)[k as int] == seg@);
            } else {
                assert(seg@ =~= t);
                assert(segments(s).skip(k as int) == seq![t]);
                assert(segments(s).skip(k as int)[0] == t);
                assert(segments(s)[k as int] == seg@);
                assert(segments(s).skip(k as int).len() == 1);
                assert(k + 1 == segments(s).len());
            }
        }
        let item = parse_sub_path(seg);
        if j < n {
            self.pos = j + 1;
        } else {
            self.pos = j;
        }
        proof {
            self.count@ = k + 1;
            let s2 = s.subrange(self.pos as int, s.len() as int);
            if m < t.len() {
                assert(s2 =~= t.subrange(m as int + 1, t.len() as int));
                assert(segments(s).skip(k as int) == seq![seg@] + segments(s2));
                assert(segments(s).skip(k as int).len() == segments(s).len() - k);
                assert(k + 1 <= segments(s).len());
                assert forall|i: int| 0 <= i < segments(s2).len() implies segments(s).skip(
                    k as int + 1,
                )[i] == segments(s2)[i] by {
                    assert(segments(s).skip(k as int)[i + 1] == segments(s2)[i]);
                    assert(segments(s).skip(k as int)[i + 1] == segments(s)[k as int + 1 + i]);
                    assert(segments(s).skip(k as int + 1)[i] == segments(s)[k as int + 1 + i]);
                }
                assert(segments(s).skip(k as int + 1) =~= segments(s2));
                if self.pos == s.len() {
                    assert(segments(s2) == Seq::<Seq<char>>::empty());
                    assert(segments(s).len() == k + 1);
                }
            } else {
                assert(self.pos == s.len());
            }
        }
        Some(item)
    }
}

/// Turns the digit characters of `seg` between `from` and `to` into their
/// numeric value, or `None` when they are not a 32-bit decimal number.
fn parse_u32_digits(seg: &str, from: usize, to: usize) -> (r: Option<u32>)
    requires
        from <= to <= seg@.len(),
    ensures
        ({
            let sub = seg@.subrange(from as int, to as int);
            if is_u32_decimal(sub) {
                r == Some(dec_val(sub) as u32)
            } else {
                r is None
            }
        }),
{
    let ghost sub = seg@.subrange(from as int, to as int);
    if from == to {
        return None;
    }
    let mut acc: u64 = 0;
    let mut i: usize = from;
    while i < to
        invariant
            from <= i <= to <= seg@.len(),
            sub == seg@.subrange(from as int, to as int),
            forall|p: int| 0 <= p < i - from ==> is_digit(#[trigger] sub[p]),
            acc == dec_val(sub.subrange(0, i - from)),
            acc < 0x1_0000_0000,
        decreases to - i,
    {
        let c = seg.get_char(i);
        proof {
            assert(sub[i - from] == seg@[i as int]);
        }
        if !(c >= '0' && c <= '9') {
            return None;
        }
        let d: u64 = (c as u32 - 48) as u64;
        acc = acc * 10 + d;
        proof {
            let p = sub.subrange(0, i - from);
            let q = sub.subrange(0, i + 1 - from);
            assert(q.drop_last() =~= p);
            assert(q.last() == sub[i - from]);
            assert(acc == dec_val(q));
        }
        i += 1;
        if acc > 0xFFFF_FFFF {
            proof {
                lemma_dec_val_prefix(sub, i - from);
            }
            return None;
        }
    }
    proof {
        assert(sub.subrange(0, to - from) =~= sub);
    }
    Some(acc as u32)
}

/// Reads one path segment, as `parse_segment` describes.
fn parse_sub_path(seg: &str) -> (r: Result<SubPath, Error>)
    ensures
        r == parse_segment(seg@),
{
    let n = seg.unicode_len();
    if n == 1 && seg.get_char(0) == 'm' {
        proof {
            assert(seg@ =~= seq!['m']);
        }
        return Ok(SubPath::Root);
    }
    proof {
        if seg@ == seq!['m'] {
            assert(seg@.len() == 1);
            assert(seg@[0] == 'm');
            assert(false);
        }
    }
    if n == 0 {
        return Err(Error::Blank);
    }
    let last = seg.get_char(n - 1);
    let value = if last == '\'' || last == 'H' {
        proof {
            assert(seg@.subrange(0, n - 1) =~= seg@.drop_last());
        }
        parse_u32_digits(seg, 0, n - 1)
    } else {
        proof {
            assert(seg@.subrange(0, n as int) =~= seg@);
        }
        parse_u32_digits(seg, 0, n)
    };
    match value {
        None => Err(Error::Invalid),
        Some(v) => {
            let key = if last == '\'' || last == 'H' {
                KeyIndex::hardened_from_normalize_index(v)
            } else {
                KeyIndex::from_index(v)
            };
            match key {
                Ok(k) => Ok(SubPath::Child(k)),
                Err(_) => Err(Error::KeyIndexOutOfRange),
            }
        },
    }
}

} // verus!
