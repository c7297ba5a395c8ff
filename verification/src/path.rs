//! Slash-separated file paths, as on Unix.
//!
//! A [`FilePath`] is the text of a path, byte for byte, and is read through its components: the
//! names between the separators. Repeated separators, a trailing separator and `.` names are
//! dropped from the components, except that a leading `/` is a component of its own and so is a
//! `.` at the very start of a relative path. `..` is kept: only the file system knows what it
//! leads to.

use vstd::prelude::*;

verus! {

/// The byte that separates names: `/`.
pub const SEPARATOR: u8 = 0x2f;

/// The byte of which the name of the current directory consists: `.`.
pub const DOT: u8 = 0x2e;

/// Where the name that starts at `from` ends: at the next separator, or with the text.
pub open spec fn piece_end(text: Seq<u8>, from: int) -> int
    decreases text.len() - from,
{
    if from >= text.len() || text[from] == SEPARATOR {
        from
    } else {
        piece_end(text, from + 1)
    }
}

pub proof fn lemma_piece_end(text: Seq<u8>, from: int)
    requires
        0 <= from <= text.len(),
    ensures
        from <= piece_end(text, from) <= text.len(),
        piece_end(text, from) < text.len() ==> text[piece_end(text, from)] == SEPARATOR,
        forall|i: int| from <= i < piece_end(text, from) ==> #[trigger] text[i] != SEPARATOR,
    decreases text.len() - from,
{
    if from < text.len() && text[from] != SEPARATOR {
        lemma_piece_end(text, from + 1);
    }
}

/// The spans of the names from `from` on. A `.` is a name only where `keep_dot` says so, and then
/// only as the first of them.
pub open spec fn body_spans(text: Seq<u8>, from: int, keep_dot: bool) -> Seq<(int, int)>
    decreases text.len() + 1 - from,
{
    if from < 0 || from >= text.len() {
        seq![]
    } else {
        let end = piece_end(text, from);
        proof {
            lemma_piece_end(text, from);
        }
        let rest = body_spans(text, end + 1, false);
        if end == from || (end == from + 1 && text[from] == DOT && !keep_dot) {
            rest
        } else {
            seq![(from, end)] + rest
        }
    }
}

/// The path starts at the root of the file system.
pub open spec fn is_rooted(text: Seq<u8>) -> bool {
    text.len() > 0 && text[0] == SEPARATOR
}

/// The spans of all components, the root among them.
pub open spec fn spans(text: Seq<u8>) -> Seq<(int, int)> {
    if is_rooted(text) {
        seq![(0int, 1int)] + body_spans(text, 1, false)
    } else {
        body_spans(text, 0, true)
    }
}

/// The components of a path. The root is the component `/`.
pub open spec fn components(text: Seq<u8>) -> Seq<Seq<u8>> {
    spans(text).map_values(|s: (int, int)| text.subrange(s.0, s.1))
}

/// The spans lie in the text, are not empty and come one after the other.
pub open spec fn placed(spans: Seq<(int, int)>, from: int, len: int) -> bool {
    &&& forall|i: int|
        0 <= i < spans.len() ==> from <= (#[trigger] spans[i]).0 < spans[i].1 <= len
    &&& forall|i: int, j: int|
        0 <= i < j < spans.len() ==> (#[trigger] spans[i]).1 <= (#[trigger] spans[j]).0
}

pub proof fn lemma_body_spans_placed(text: Seq<u8>, from: int, keep_dot: bool)
    requires
        0 <= from,
    ensures
        placed(body_spans(text, from, keep_dot), from, text.len() as int),
    decreases text.len() + 1 - from,
{
    if from < text.len() {
        lemma_piece_end(text, from);
        let end = piece_end(text, from);
        lemma_body_spans_placed(text, end + 1, false);
        let rest = body_spans(text, end + 1, false);
        let all = body_spans(text, from, keep_dot);
        assert(all == rest || all == seq![(from, end)] + rest);
        if all != rest {
            assert forall|i: int| 0 < i < all.len() implies #[trigger] all[i] == rest[i - 1] by {}
        }
    }
}

pub proof fn lemma_spans_placed(text: Seq<u8>)
    ensures
        placed(spans(text), 0, text.len() as int),
{
    if is_rooted(text) {
        lemma_body_spans_placed(text, 1, false);
        let rest = body_spans(text, 1, false);
        assert forall|i: int| 0 < i < spans(text).len() implies #[trigger] spans(text)[i] == rest[i
            - 1] by {}
    } else {
        lemma_body_spans_placed(text, 0, true);
    }
}

/// The text that `path.join(relative)` has: `relative` itself where it is rooted, else both with
/// one separator between them where the first does not end in one.
pub open spec fn joined(base: Seq<u8>, relative: Seq<u8>) -> Seq<u8> {
    if is_rooted(relative) {
        relative
    } else if base.len() > 0 && base.last() != SEPARATOR {
        base.push(SEPARATOR) + relative
    } else {
        base + relative
    }
}

/// The components of `base` are the first components of `text`.
pub open spec fn under(text: Seq<u8>, base: Seq<u8>) -> bool {
    components(base).is_prefix_of(components(text))
}

/// Two texts name the same path: they have the same components.
pub open spec fn same_path(a: Seq<u8>, b: Seq<u8>) -> bool {
    components(a) == components(b)
}

/// The text from the component at `n` to the last one; empty if there are no more than `n`.
pub open spec fn tail_text(text: Seq<u8>, n: int) -> Seq<u8> {
    if 0 <= n < spans(text).len() {
        text.subrange(spans(text)[n].0, spans(text).last().1)
    } else {
        seq![]
    }
}

/// The text up to the end of the first `n` components.
pub open spec fn head_text(text: Seq<u8>, n: int) -> Seq<u8> {
    if 0 < n <= spans(text).len() {
        text.subrange(0, spans(text)[n - 1].1)
    } else {
        seq![]
    }
}

/// Where a mark starts.
pub const MARK_SEED: u64 = 0xcbf2_9ce4_8422_2325;

/// By what a mark is multiplied at every byte.
pub const MARK_FACTOR: u64 = 0x0100_0000_01b3;

/// The mark with one byte more taken in.
pub open spec fn stirred(mark: u64, byte: u8) -> u64 {
    (mark ^ (byte as u64)).wrapping_mul(MARK_FACTOR)
}

/// The mark with all bytes of a name taken in.
pub open spec fn name_mark(mark: u64, name: Seq<u8>) -> u64
    decreases name.len(),
{
    if name.len() == 0 {
        mark
    } else {
        stirred(name_mark(mark, name.drop_last()), name.last())
    }
}

/// The mark of a path with these components. Paths with different marks are different.
pub open spec fn path_mark(names: Seq<Seq<u8>>) -> u64
    decreases names.len(),
{
    if names.len() == 0 {
        MARK_SEED
    } else {
        name_mark(stirred(path_mark(names.drop_last()), SEPARATOR), names.last())
    }
}

/// Where one component lies in the text of its path.
#[derive(Clone, Copy)]
struct Span {
    start: usize,
    end: usize,
}

impl Span {
    spec fn pair(self) -> (int, int) {
        (self.start as int, self.end as int)
    }
}

spec fn pairs(found: Seq<Span>) -> Seq<(int, int)> {
    found.map_values(|s: Span| s.pair())
}

/// A path, held as its text.
#[derive(Debug)]
pub struct FilePath {
    text: Vec<u8>,
}

impl View for FilePath {
    type V = Seq<u8>;

    closed spec fn view(&self) -> Seq<u8> {
        self.text@
    }
}

impl Clone for FilePath {
    fn clone(&self) -> (res: Self)
        ensures
            res@ == self@,
    {
        let text = self.text.clone();
        assert(text@ =~= self.text@);
        FilePath { text }
    }
}

fn scan_spans(text: &Vec<u8>) -> (found: Vec<Span>)
    ensures
        pairs(found@) == spans(text@),
{
    let mut found: Vec<Span> = Vec::new();
    let mut from: usize = 0;
    let mut keep_dot = true;
    if text.len() > 0 && text[0] == SEPARATOR {
        found.push(Span { start: 0, end: 1 });
        from = 1;
        keep_dot = false;
    }
    proof {
        assert(spans(text@) =~= pairs(found@) + body_spans(text@, from as int, keep_dot));
    }
    while from < text.len()
        invariant
            spans(text@) == pairs(found@) + body_spans(text@, from as int, keep_dot),
        decreases text.len() + 1 - from,
    {
        let mut end: usize = from;
        while end < text.len() && text[end] != SEPARATOR
            invariant
                from <= end <= text.len(),
                piece_end(text@, from as int) == piece_end(text@, end as int),
            decreases text.len() - end,
        {
            end += 1;
        }
        let ghost before = found@;
        if !(end == from || (end == from + 1 && text[from] == DOT && !keep_dot)) {
            found.push(Span { start: from, end });
            proof {
                let rest = body_spans(text@, end + 1, false);
                assert(pairs(found@) =~= pairs(before).push((from as int, end as int)));
                assert(pairs(before) + (seq![(from as int, end as int)] + rest) =~= pairs(found@)
                    + rest);
            }
        }
        if end == text.len() {
            assert(pairs(found@) + body_spans(text@, end + 1, false) =~= pairs(found@));
            return found;
        }
        from = end + 1;
        keep_dot = false;
    }
    assert(pairs(found@) + body_spans(text@, from as int, keep_dot) =~= pairs(found@));
    found
}

/// The bytes at `s` in `a` and at `t` in `b` are the same.
fn same_name(a: &Vec<u8>, s: Span, b: &Vec<u8>, t: Span) -> (res: bool)
    requires
        s.start <= s.end <= a.len(),
        t.start <= t.end <= b.len(),
    ensures
        res == (a@.subrange(s.start as int, s.end as int) == b@.subrange(
            t.start as int,
            t.end as int,
        )),
{
    let ghost x = a@.subrange(s.start as int, s.end as int);
    let ghost y = b@.subrange(t.start as int, t.end as int);
    if s.end - s.start != t.end - t.start {
        assert(x.len() != y.len());
        return false;
    }
    let n: usize = s.end - s.start;
    let mut i: usize = 0;
    while i < n
        invariant
            i <= n,
            s.start + n == s.end,
            s.end <= a.len(),
            t.start + n == t.end,
            t.end <= b.len(),
            x == a@.subrange(s.start as int, s.end as int),
            y == b@.subrange(t.start as int, t.end as int),
            forall|k: int| 0 <= k < i ==> x[k] == y[k],
        decreases n - i,
    {
        if a[s.start + i] != b[t.start + i] {
            assert(x[i as int] != y[i as int]);
            return false;
        }
        i += 1;
    }
    assert(x =~= y);
    true
}

/// The first `n` components of both texts are the same.
fn same_names(a: &Vec<u8>, sa: &Vec<Span>, b: &Vec<u8>, sb: &Vec<Span>, n: usize) -> (res: bool)
    requires
        pairs(sa@) == spans(a@),
        pairs(sb@) == spans(b@),
        n <= sa.len(),
        n <= sb.len(),
    ensures
        res == (components(a@).take(n as int) == components(b@).take(n as int)),
{
    let ghost x = components(a@).take(n as int);
    let ghost y = components(b@).take(n as int);
    proof {
        lemma_spans_placed(a@);
        lemma_spans_placed(b@);
        assert(pairs(sa@).len() == sa.len() && pairs(sb@).len() == sb.len());
    }
    let mut i: usize = 0;
    while i < n
        invariant
            i <= n,
            n <= sa.len(),
            n <= sb.len(),
            pairs(sa@) == spans(a@),
            pairs(sb@) == spans(b@),
            pairs(sa@).len() == sa.len(),
            pairs(sb@).len() == sb.len(),
            placed(spans(a@), 0, a@.len() as int),
            placed(spans(b@), 0, b@.len() as int),
            x == components(a@).take(n as int),
            y == components(b@).take(n as int),
            forall|k: int| 0 <= k < i ==> x[k] == y[k],
        decreases n - i,
    {
        proof {
            assert(pairs(sa@)[i as int] == sa@[i as int].pair());
            assert(pairs(sb@)[i as int] == sb@[i as int].pair());
        }
        if !same_name(a, sa[i], b, sb[i]) {
            assert(x[i as int] != y[i as int]);
            return false;
        }
        i += 1;
    }
    assert(x =~= y);
    true
}

/// The mark with one byte more taken in.
fn stir(mark: u64, byte: u8) -> (res: u64)
    ensures
        res == stirred(mark, byte),
{
    (mark ^ (byte as u64)).wrapping_mul(MARK_FACTOR)
}

/// A copy of the bytes from `start` up to `end`.
fn copy_range(text: &Vec<u8>, start: usize, end: usize) -> (res: Vec<u8>)
    requires
        start <= end <= text.len(),
    ensures
        res@ == text@.subrange(start as int, end as int),
{
    let mut res: Vec<u8> = Vec::new();
    let mut i: usize = start;
    while i < end
        invariant
            start <= i <= end,
            end <= text.len(),
            res@ == text@.subrange(start as int, i as int),
        decreases end - i,
    {
        res.push(text[i]);
        i += 1;
        assert(res@ =~= text@.subrange(start as int, i as int));
    }
    res
}

impl FilePath {
    /// The path with the given text.
    pub fn new(text: Vec<u8>) -> (res: Self)
        ensures
            res@ == text@,
    {
        FilePath { text }
    }

    /// The text of the path.
    pub fn as_bytes(&self) -> (res: &[u8])
        ensures
            res@ == self@,
    {
        self.text.as_slice()
    }

    /// Whether the path starts at the root of the file system.
    pub fn is_absolute(&self) -> (res: bool)
        ensures
            res == is_rooted(self@),
    {
        self.text.len() > 0 && self.text[0] == SEPARATOR
    }

    /// How many components the path has.
    pub fn component_count(&self) -> (res: usize)
        ensures
            res == components(self@).len(),
    {
        let found = scan_spans(&self.text);
        assert(pairs(found@).len() == found.len());
        found.len()
    }

    /// Whether `base` is the path itself or one of its ancestors, component by component.
    pub fn starts_with(&self, base: &FilePath) -> (res: bool)
        ensures
            res == under(self@, base@),
    {
        let own = scan_spans(&self.text);
        let other = scan_spans(&base.text);
        assert(pairs(own@).len() == own.len() && pairs(other@).len() == other.len());
        if other.len() > own.len() {
            return false;
        }
        assert(components(base@).take(other.len() as int) =~= components(base@));
        same_names(&self.text, &own, &base.text, &other, other.len())
    }

    /// Whether both name the same path: whether they have the same components.
    pub fn same_as(&self, other: &FilePath) -> (res: bool)
        ensures
            res == same_path(self@, other@),
    {
        let a = scan_spans(&self.text);
        let b = scan_spans(&other.text);
        assert(pairs(a@).len() == a.len() && pairs(b@).len() == b.len());
        if a.len() != b.len() {
            assert(components(self@).len() != components(other@).len());
            return false;
        }
        assert(components(self@).take(a.len() as int) =~= components(self@));
        assert(components(other@).take(a.len() as int) =~= components(other@));
        same_names(&self.text, &a, &other.text, &b, a.len())
    }

    /// The mark of the path, by which unequal paths can be told apart quickly.
    pub fn mark(&self) -> (res: u64)
        ensures
            res == path_mark(components(self@)),
    {
        let found = scan_spans(&self.text);
        let ghost names = components(self@);
        proof {
            assert(pairs(found@).len() == found.len());
            lemma_spans_placed(self@);
        }
        let mut res: u64 = MARK_SEED;
        let mut i: usize = 0;
        while i < found.len()
            invariant
                i <= found.len(),
                pairs(found@) == spans(self@),
                pairs(found@).len() == found.len(),
                placed(spans(self@), 0, self@.len() as int),
                names == components(self@),
                res == path_mark(names.take(i as int)),
            decreases found.len() - i,
        {
            assert(pairs(found@)[i as int] == found@[i as int].pair());
            let start: usize = found[i].start;
            let end: usize = found[i].end;
            let ghost name = names[i as int];
            res = stir(res, SEPARATOR);
            let ghost seed = res;
            let mut k: usize = start;
            assert(name.take(0) =~= seq![]);
            while k < end
                invariant
                    start <= k <= end <= self.text.len(),
                    name == self.text@.subrange(start as int, end as int),
                    res == name_mark(seed, name.take(k - start)),
                decreases end - k,
            {
                res = stir(res, self.text[k]);
                assert(name.take(k + 1 - start).drop_last() =~= name.take(k - start));
                k += 1;
            }
            proof {
                assert(name.take(end - start) =~= name);
                assert(names.take(i + 1).drop_last() =~= names.take(i as int));
            }
            i += 1;
        }
        assert(names.take(i as int) =~= names);
        res
    }

    /// `relative` seen from this path.
    pub fn join(&self, relative: &FilePath) -> (res: FilePath)
        ensures
            res@ == joined(self@, relative@),
    {
        if relative.is_absolute() {
            return relative.clone();
        }
        let mut text = copy_range(&self.text, 0, self.text.len());
        assert(text@ =~= self.text@);
        if text.len() > 0 && text[text.len() - 1] != SEPARATOR {
            text.push(SEPARATOR);
        }
        let mut rest = copy_range(&relative.text, 0, relative.text.len());
        assert(rest@ =~= relative.text@);
        text.append(&mut rest);
        FilePath { text }
    }

    /// What is left of the path below `base`; `None` if it is not below it.
    pub fn strip_prefix(&self, base: &FilePath) -> (res: Option<FilePath>)
        ensures
            res is Some <==> under(self@, base@),
            res matches Some(rest) ==> rest@ == tail_text(self@, components(base@).len() as int),
    {
        if !self.starts_with(base) {
            return None;
        }
        let found = scan_spans(&self.text);
        let n: usize = base.component_count();
        proof {
            assert(pairs(found@).len() == found.len());
            lemma_spans_placed(self@);
        }
        if n < found.len() {
            let last: usize = found.len() - 1;
            proof {
                assert(pairs(found@)[n as int] == found@[n as int].pair());
                assert(pairs(found@)[last as int] == found@[last as int].pair());
            }
            Some(FilePath { text: copy_range(&self.text, found[n].start, found[last].end) })
        } else {
            Some(FilePath { text: Vec::new() })
        }
    }

    /// The path of the first `n` components.
    pub fn head(&self, n: usize) -> (res: FilePath)
        ensures
            res@ == head_text(self@, n as int),
    {
        let found = scan_spans(&self.text);
        proof {
            assert(pairs(found@).len() == found.len());
            lemma_spans_placed(self@);
        }
        if n > 0 && n <= found.len() {
            assert(pairs(found@)[n - 1] == found@[n - 1].pair());
            FilePath { text: copy_range(&self.text, 0, found[n - 1].end) }
        } else {
            FilePath { text: Vec::new() }
        }
    }
}

impl PartialEq for FilePath {
    fn eq(&self, other: &Self) -> (res: bool) {
        self.same_as(other)
    }
}

impl vstd::std_specs::cmp::PartialEqSpecImpl for FilePath {
    open spec fn obeys_eq_spec() -> bool {
        true
    }

    open spec fn eq_spec(&self, other: &Self) -> bool {
        same_path(self@, other@)
    }
}

} // verus!
