//! The format language: control kinds, segments and the tokenizer.

use vstd::prelude::*;
use crate::escape::{resolve_literal, resolved};

verus! {

/// A placeholder in a format string, replaced by a property of an element.
#[derive(Clone, Copy, Debug, PartialEq, Eq, Structural)]
pub enum ControlKind {
    Id,
    Name,
    Classes,
    Text,
    Html,
    Attrs,
}

/// The word that follows the backslash in a control marker.
pub open spec fn spelling_of(k: ControlKind) -> Seq<char> {
    match k {
        ControlKind::Id => seq!['i', 'd'],
        ControlKind::Name => seq!['n', 'a', 'm', 'e'],
        ControlKind::Classes => seq!['c', 'l', 'a', 's', 's', 'e', 's'],
        ControlKind::Text => seq!['t', 'e', 'x', 't'],
        ControlKind::Html => seq!['h', 't', 'm', 'l'],
        ControlKind::Attrs => seq!['a', 't', 't', 'r', 's'],
    }
}

/// The canonical marker of a control kind: a backslash and its spelling.
pub open spec fn marker(k: ControlKind) -> Seq<char> {
    seq!['\\'] + spelling_of(k)
}

impl ControlKind {
    /// The word that follows the backslash in this kind's marker.
    pub fn spelling(&self) -> (r: Vec<char>)
        ensures
            r@ == spelling_of(*self),
    {
        match self {
            ControlKind::Id => vec!['i', 'd'],
            ControlKind::Name => vec!['n', 'a', 'm', 'e'],
            ControlKind::Classes => vec!['c', 'l', 'a', 's', 's', 'e', 's'],
            ControlKind::Text => vec!['t', 'e', 'x', 't'],
            ControlKind::Html => vec!['h', 't', 'm', 'l'],
            ControlKind::Attrs => vec!['a', 't', 't', 'r', 's'],
        }
    }

    /// This kind's marker: a backslash followed by its spelling.
    pub fn marker(&self) -> (r: Vec<char>)
        ensures
            r@ == marker(*self),
    {
        let mut r: Vec<char> = vec!['\\'];
        let mut s = self.spelling();
        r.append(&mut s);
        r
    }
}

/// One piece of a parsed format: text to emit, or a control placeholder.
#[derive(Clone, Debug, PartialEq, Eq)]
pub enum Segment {
    Literal(String),
    Control(ControlKind),
}

/// The mathematical value of a segment.
pub enum SegmentView {
    Literal(Seq<char>),
    Control(ControlKind),
}

impl View for Segment {
    type V = SegmentView;

    open spec fn view(&self) -> SegmentView {
        match self {
            Segment::Literal(t) => SegmentView::Literal(t@),
            Segment::Control(k) => SegmentView::Control(*k),
        }
    }
}

/// The values of a sequence of segments.
pub open spec fn segment_views(v: Seq<Segment>) -> Seq<SegmentView> {
    v.map_values(|s: Segment| s@)
}

/// An unescaped marker of kind `k` starts at position `i` of `t`: the marker
/// occurs there and is not preceded by a backslash.
pub open spec fn marker_at(t: Seq<char>, i: int, k: ControlKind) -> bool {
    &&& 0 <= i
    &&& i + marker(k).len() <= t.len()
    &&& t.subrange(i, i + marker(k).len()) == marker(k)
    &&& (i == 0 || t[i - 1] != '\\')
}

/// The literal `t[last..i]` as a segment list: empty when that range is empty.
pub open spec fn pending_literal(t: Seq<char>, last: int, i: int) -> Seq<SegmentView> {
    if last < i {
        seq![SegmentView::Literal(t.subrange(last, i))]
    } else {
        seq![]
    }
}

/// Splitting the text `t` on the unescaped markers of kind `k`, scanning from
/// position `i`, where the text not yet emitted starts at `last`. Non-empty
/// text between markers becomes a literal; each marker becomes a control.
pub open spec fn split_text(t: Seq<char>, k: ControlKind, last: int, i: int) -> Seq<SegmentView>
    decreases t.len() - i,
{
    if i >= t.len() {
        pending_literal(t, last, t.len() as int)
    } else if i >= 0 && marker_at(t, i, k) {
        pending_literal(t, last, i) + seq![SegmentView::Control(k)]
            + split_text(t, k, i + marker(k).len(), i + marker(k).len())
    } else {
        split_text(t, k, last, i + 1)
    }
}

/// The segments of one segment after splitting on kind `k`: literals are split,
/// controls stay.
pub open spec fn split_one(s: SegmentView, k: ControlKind) -> Seq<SegmentView> {
    match s {
        SegmentView::Literal(t) => split_text(t, k, 0, 0),
        SegmentView::Control(c) => seq![SegmentView::Control(c)],
    }
}

/// Splitting every literal of a segment list on kind `k`, in order.
pub open spec fn split_seq(segs: Seq<SegmentView>, k: ControlKind) -> Seq<SegmentView>
    decreases segs.len(),
{
    if segs.len() == 0 {
        seq![]
    } else {
        split_seq(segs.drop_last(), k) + split_one(segs.last(), k)
    }
}

/// Relies on str::chars: the characters of a string, in order.
#[verifier::external_body]
pub(crate) fn chars_of(s: &str) -> (r: Vec<char>)
    ensures
        r@ == s@,
{
    s.chars().collect()
}

/// Relies on String's FromIterator<char>: the string of the given characters.
#[verifier::external_body]
pub(crate) fn string_from_chars(v: &Vec<char>) -> (r: String)
    ensures
        r@ == v@,
{
    v.iter().collect()
}

/// The characters `t[lo..hi]` as a string.
fn substring(t: &Vec<char>, lo: usize, hi: usize) -> (r: String)
    requires
        lo <= hi <= t@.len(),
    ensures
        r@ == t@.subrange(lo as int, hi as int),
{
    let mut v: Vec<char> = Vec::new();
    let mut j: usize = lo;
    while j < hi
        invariant
            lo <= j <= hi <= t@.len(),
            v@ == t@.subrange(lo as int, j as int),
        decreases hi - j,
    {
        v.push(t[j]);
        j = j + 1;
        assert(v@ =~= t@.subrange(lo as int, j as int));
    }
    string_from_chars(&v)
}

/// Whether `m` occurs in `t` at position `i`.
pub(crate) fn occurs_at(t: &Vec<char>, m: &Vec<char>, i: usize) -> (r: bool)
    ensures
        r == (i + m@.len() <= t@.len() && t@.subrange(i as int, i + m@.len()) == m@),
{
    if i > t.len() || m.len() > t.len() - i {
        return false;
    }
    let tl = t.len();
    let mut j: usize = 0;
    while j < m.len()
        invariant
            tl == t@.len(),
            i + m@.len() <= t@.len(),
            j <= m@.len(),
            forall|x: int| 0 <= x < j ==> t@[i + x] == m@[x],
        decreases m@.len() - j,
    {
        if t[i + j] != m[j] {
            assert(t@.subrange(i as int, i + m@.len())[j as int] != m@[j as int]);
            return false;
        }
        j = j + 1;
    }
    assert(t@.subrange(i as int, i + m@.len()) =~= m@);
    true
}

/// Appends to `out` the segments of the literal `text` split on the
/// unescaped markers of kind `k`.
fn split_literal(text: &String, k: ControlKind, out: &mut Vec<Segment>)
    ensures
        segment_views(final(out)@) == segment_views(old(out)@) + split_text(text@, k, 0, 0),
{
    let t = chars_of(text.as_str());
    let m = k.marker();
    let n = t.len();
    let mut last: usize = 0;
    let mut i: usize = 0;
    while i < n
        invariant
            0 <= last <= i <= n,
            n == t@.len(),
            t@ == text@,
            m@ == marker(k),
            segment_views(out@) + split_text(t@, k, last as int, i as int)
                == segment_views(old(out)@) + split_text(t@, k, 0, 0),
        decreases n - i,
    {
        let before = Ghost(segment_views(out@));
        if occurs_at(&t, &m, i) && (i == 0 || t[i - 1] != '\\') {
            assert(marker_at(t@, i as int, k));
            if last < i {
                let lit = substring(&t, last, i);
                out.push(Segment::Literal(lit));
            }
            out.push(Segment::Control(k));
            assert(segment_views(out@) =~= before@ + pending_literal(t@, last as int, i as int)
                + seq![SegmentView::Control(k)]);
            i = i + m.len();
            last = i;
        } else {
            assert(!marker_at(t@, i as int, k));
            i = i + 1;
        }
    }
    let before = Ghost(segment_views(out@));
    if last < n {
        let lit = substring(&t, last, n);
        out.push(Segment::Literal(lit));
    }
    assert(segment_views(out@) =~= before@ + pending_literal(t@, last as int, n as int));
}

/// Splits every literal of `splits` on the unescaped markers of kind `arg`,
/// keeping each marker found as a control segment; controls pass unchanged.
pub fn split_keep(splits: &[Segment], arg: ControlKind) -> (r: Vec<Segment>)
    ensures
        segment_views(r@) == split_seq(segment_views(splits@), arg),
{
    let mut result: Vec<Segment> = Vec::new();
    let mut j: usize = 0;
    while j < splits.len()
        invariant
            j <= splits@.len(),
            segment_views(result@) == split_seq(segment_views(splits@.subrange(0, j as int)), arg),
        decreases splits@.len() - j,
    {
        let ghost prev = segment_views(splits@.subrange(0, j as int));
        let ghost next = segment_views(splits@.subrange(0, j + 1));
        assert(next.drop_last() =~= prev);
        assert(next.last() == splits@[j as int]@);
        match &splits[j] {
            Segment::Literal(text) => {
                split_literal(text, arg, &mut result);
            },
            Segment::Control(c) => {
                let ghost before = segment_views(result@);
                result.push(Segment::Control(*c));
                assert(segment_views(result@) =~= before + seq![SegmentView::Control(*c)]);
            },
        }
        j = j + 1;
    }
    assert(splits@.subrange(0, j as int) =~= splits@);
    result
}

/// Splitting a format string on every kind of marker, one pass per kind in
/// the fixed order Id, Name, Classes, Text, Html, Attrs.
pub open spec fn split_all(s: Seq<char>) -> Seq<SegmentView> {
    let a = split_seq(seq![SegmentView::Literal(s)], ControlKind::Id);
    let b = split_seq(a, ControlKind::Name);
    let c = split_seq(b, ControlKind::Classes);
    let d = split_seq(c, ControlKind::Text);
    let e = split_seq(d, ControlKind::Html);
    split_seq(e, ControlKind::Attrs)
}

/// A segment with its literal text escape-resolved.
pub open spec fn resolve_view(s: SegmentView) -> SegmentView {
    match s {
        SegmentView::Literal(t) => SegmentView::Literal(resolved(t)),
        SegmentView::Control(k) => SegmentView::Control(k),
    }
}

/// The parsed form of a format string: split, then each literal resolved.
pub open spec fn parsed_format(s: Seq<char>) -> Seq<SegmentView> {
    split_all(s).map_values(|x: SegmentView| resolve_view(x))
}

/// The source text of a segment: a literal's text, or a control's marker.
pub open spec fn raw_one(s: SegmentView) -> Seq<char> {
    match s {
        SegmentView::Literal(t) => t,
        SegmentView::Control(k) => marker(k),
    }
}

/// The source text of a segment list: each segment's source text, in order.
pub open spec fn raw_text(segs: Seq<SegmentView>) -> Seq<char>
    decreases segs.len(),
{
    if segs.len() == 0 {
        seq![]
    } else {
        raw_text(segs.drop_last()) + raw_one(segs.last())
    }
}

/// Splits a format string into literal and control segments, one pass per
/// kind in the fixed order Id, Name, Classes, Text, Html, Attrs. Literals
/// keep their escapes.
pub fn split_format(format: &String) -> (r: Vec<Segment>)
    ensures
        segment_views(r@) == split_all(format@),
{
    let start = vec![Segment::Literal(format.clone())];
    assert(segment_views(start@) =~= seq![SegmentView::Literal(format@)]);
    let a = split_keep(start.as_slice(), ControlKind::Id);
    let b = split_keep(a.as_slice(), ControlKind::Name);
    let c = split_keep(b.as_slice(), ControlKind::Classes);
    let d = split_keep(c.as_slice(), ControlKind::Text);
    let e = split_keep(d.as_slice(), ControlKind::Html);
    split_keep(e.as_slice(), ControlKind::Attrs)
}

/// Parses a format string: splits it into segments, then resolves the
/// backslash escapes of each literal.
pub fn parse_format(format: &String) -> (r: Vec<Segment>)
    ensures
        segment_views(r@) == parsed_format(format@),
{
    let split = split_format(format);
    let mut out: Vec<Segment> = Vec::new();
    let mut j: usize = 0;
    while j < split.len()
        invariant
            j <= split@.len(),
            segment_views(split@) == split_all(format@),
            segment_views(out@) =~= segment_views(split@).subrange(0, j as int).map_values(
                |x: SegmentView| resolve_view(x),
            ),
        decreases split@.len() - j,
    {
        let ghost before = segment_views(out@);
        match &split[j] {
            Segment::Literal(text) => {
                let lit = resolve_literal(text);
                out.push(Segment::Literal(lit));
            },
            Segment::Control(k) => {
                out.push(Segment::Control(*k));
            },
        }
        assert(segment_views(out@) =~= before.push(resolve_view(split@[j as int]@)));
        j = j + 1;
    }
    assert(segment_views(split@).subrange(0, j as int) =~= segment_views(split@));
    out
}

proof fn lemma_raw_single(x: SegmentView)
    ensures
        raw_text(seq![x]) == raw_one(x),
{
    assert(seq![x].drop_last() =~= seq![]);
    assert(raw_text(seq![]) == Seq::<char>::empty());
    assert(raw_text(seq![x]) =~= raw_one(x));
}

proof fn lemma_split_single(x: SegmentView, k: ControlKind)
    ensures
        split_seq(seq![x], k) == split_one(x, k),
{
    assert(seq![x].drop_last() =~= seq![]);
    assert(split_seq(seq![], k) == Seq::<SegmentView>::empty());
    assert(split_seq(seq![x], k) =~= split_one(x, k));
}

proof fn lemma_raw_concat(a: Seq<SegmentView>, b: Seq<SegmentView>)
    ensures
        raw_text(a + b) == raw_text(a) + raw_text(b),
    decreases b.len(),
{
    if b.len() == 0 {
        assert(a + b =~= a);
    } else {
        assert((a + b).drop_last() =~= a + b.drop_last());
        assert((a + b).last() == b.last());
        lemma_raw_concat(a, b.drop_last());
    }
}

proof fn lemma_raw_split_text(t: Seq<char>, k: ControlKind, last: int, i: int)
    requires
        0 <= last <= i <= t.len(),
    ensures
        raw_text(split_text(t, k, last, i)) == t.subrange(last, t.len() as int),
    decreases t.len() - i,
{
    let ml = marker(k).len() as int;
    if i >= t.len() {
        if last < t.len() {
            lemma_raw_single(SegmentView::Literal(t.subrange(last, t.len() as int)));
        } else {
            assert(t.subrange(last, t.len() as int) =~= seq![]);
        }
    } else if marker_at(t, i, k) {
        let p = pending_literal(t, last, i);
        let c = seq![SegmentView::Control(k)];
        let rest = split_text(t, k, i + ml, i + ml);
        lemma_raw_split_text(t, k, i + ml, i + ml);
        lemma_raw_concat(p + c, rest);
        lemma_raw_concat(p, c);
        lemma_raw_single(SegmentView::Control(k));
        if last < i {
            lemma_raw_single(SegmentView::Literal(t.subrange(last, i)));
        }
        assert(raw_text(p) =~= t.subrange(last, i));
        assert(t.subrange(last, t.len() as int) =~= t.subrange(last, i) + marker(k)
            + t.subrange(i + ml, t.len() as int));
    } else {
        lemma_raw_split_text(t, k, last, i + 1);
    }
}

proof fn lemma_raw_split_seq(segs: Seq<SegmentView>, k: ControlKind)
    ensures
        raw_text(split_seq(segs, k)) == raw_text(segs),
    decreases segs.len(),
{
    if segs.len() > 0 {
        lemma_raw_split_seq(segs.drop_last(), k);
        lemma_raw_concat(split_seq(segs.drop_last(), k), split_one(segs.last(), k));
        match segs.last() {
            SegmentView::Literal(t) => {
                lemma_raw_split_text(t, k, 0, 0);
                assert(t.subrange(0, t.len() as int) =~= t);
            },
            SegmentView::Control(c) => {
                lemma_raw_single(SegmentView::Control(c));
            },
        }
    }
}

/// Splitting loses nothing: writing each literal's text and each control's
/// marker back, in order, gives the format string again.
pub proof fn lemma_round_trip(s: Seq<char>)
    ensures
        raw_text(split_all(s)) == s,
{
    let start = seq![SegmentView::Literal(s)];
    lemma_raw_single(SegmentView::Literal(s));
    lemma_raw_split_seq(start, ControlKind::Id);
    let a = split_seq(start, ControlKind::Id);
    lemma_raw_split_seq(a, ControlKind::Name);
    let b = split_seq(a, ControlKind::Name);
    lemma_raw_split_seq(b, ControlKind::Classes);
    let c = split_seq(b, ControlKind::Classes);
    lemma_raw_split_seq(c, ControlKind::Text);
    let d = split_seq(c, ControlKind::Text);
    lemma_raw_split_seq(d, ControlKind::Html);
    let e = split_seq(d, ControlKind::Html);
    lemma_raw_split_seq(e, ControlKind::Attrs);
}

proof fn lemma_plain_split_text(t: Seq<char>, k: ControlKind, last: int, i: int)
    requires
        0 <= last <= i <= t.len(),
        forall|j: int| !marker_at(t, j, k),
    ensures
        split_text(t, k, last, i) == pending_literal(t, last, t.len() as int),
    decreases t.len() - i,
{
    if i < t.len() {
        lemma_plain_split_text(t, k, last, i + 1);
    }
}

proof fn lemma_plain_pass(s: Seq<char>, segs: Seq<SegmentView>, k: ControlKind)
    requires
        forall|j: int| !marker_at(s, j, k),
        segs == (if s.len() == 0 { seq![] } else { seq![SegmentView::Literal(s)] }),
    ensures
        split_seq(segs, k) == segs,
{
    if s.len() > 0 {
        lemma_split_single(SegmentView::Literal(s), k);
        lemma_plain_split_text(s, k, 0, 0);
        assert(s.subrange(0, s.len() as int) =~= s);
        assert(split_seq(segs, k) =~= segs);
    }
}

/// A format string with no unescaped marker parses to a single literal, its
/// escape-resolved text, or to nothing when it is empty.
pub proof fn lemma_plain_format(s: Seq<char>)
    requires
        forall|k: ControlKind, j: int| !marker_at(s, j, k),
    ensures
        parsed_format(s) == (if s.len() == 0 {
            seq![]
        } else {
            seq![SegmentView::Literal(resolved(s))]
        }),
{
    let start = seq![SegmentView::Literal(s)];
    let segs = if s.len() == 0 { seq![] } else { start };
    if s.len() == 0 {
        lemma_split_single(SegmentView::Literal(s), ControlKind::Id);
        lemma_plain_split_text(s, ControlKind::Id, 0, 0);
        assert(split_seq(start, ControlKind::Id) =~= seq![]);
    } else {
        lemma_plain_pass(s, start, ControlKind::Id);
    }
    lemma_plain_pass(s, segs, ControlKind::Name);
    lemma_plain_pass(s, segs, ControlKind::Classes);
    lemma_plain_pass(s, segs, ControlKind::Text);
    lemma_plain_pass(s, segs, ControlKind::Html);
    lemma_plain_pass(s, segs, ControlKind::Attrs);
    assert(parsed_format(s) =~= segs.map_values(|x: SegmentView| resolve_view(x)));
    if s.len() == 0 {
        assert(parsed_format(s) =~= seq![]);
    } else {
        assert(parsed_format(s) =~= seq![SegmentView::Literal(resolved(s))]);
    }
}

} // verus!
