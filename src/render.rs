//! Rendering an element through a parsed format.

use vstd::prelude::*;
use crate::format::{chars_of, string_from_chars, segment_views, ControlKind, Segment, SegmentView};

verus! {

/// What a format can read of a matched element, as plain values.
#[derive(Clone, Debug, PartialEq, Eq)]
pub struct ElementData {
    /// The value of the `id` attribute, if the element has one.
    pub id: Option<String>,
    /// The tag name, lower case.
    pub name: String,
    /// The class names, in declared order; duplicates allowed.
    pub classes: Vec<String>,
    /// The descendant text nodes, in document order.
    pub texts: Vec<String>,
    /// The element serialized as HTML.
    pub html: String,
    /// The attributes as key and value, in declared order.
    pub attrs: Vec<(String, String)>,
}

/// The items joined with `sep` between each two neighbours.
pub open spec fn join(items: Seq<Seq<char>>, sep: Seq<char>) -> Seq<char>
    decreases items.len(),
{
    if items.len() == 0 {
        seq![]
    } else if items.len() == 1 {
        items[0]
    } else {
        join(items.drop_last(), sep) + sep + items.last()
    }
}

/// The texts of a list of strings.
pub open spec fn string_views(v: Seq<String>) -> Seq<Seq<char>> {
    v.map_values(|s: String| s@)
}

/// An attribute written as `key: value`.
pub open spec fn attr_text(p: (String, String)) -> Seq<char> {
    p.0@ + seq![':', ' '] + p.1@
}

/// What a control of kind `k` writes for element `e`.
pub open spec fn projection(e: ElementData, k: ControlKind) -> Seq<char> {
    match k {
        ControlKind::Id => match e.id {
            Some(s) => s@,
            None => seq![],
        },
        ControlKind::Name => e.name@,
        ControlKind::Classes => join(string_views(e.classes@), seq![',']),
        ControlKind::Text => join(string_views(e.texts@), seq![]),
        ControlKind::Html => e.html@,
        ControlKind::Attrs => join(e.attrs@.map_values(|p: (String, String)| attr_text(p)), seq![',']),
    }
}

/// What one segment writes for element `e`.
pub open spec fn segment_output(e: ElementData, s: SegmentView) -> Seq<char> {
    match s {
        SegmentView::Literal(t) => t,
        SegmentView::Control(k) => projection(e, k),
    }
}

/// What a format writes for element `e`: each segment's output, in order.
pub open spec fn rendered(e: ElementData, segs: Seq<SegmentView>) -> Seq<char>
    decreases segs.len(),
{
    if segs.len() == 0 {
        seq![]
    } else {
        rendered(e, segs.drop_last()) + segment_output(e, segs.last())
    }
}

pub(crate) fn append_str(out: &mut Vec<char>, s: &String)
    ensures
        final(out)@ == old(out)@ + s@,
{
    let mut c = chars_of(s.as_str());
    out.append(&mut c);
}

/// Appends the items, with `sep` between each two neighbours.
pub(crate) fn append_joined(out: &mut Vec<char>, items: &Vec<String>, sep: &Vec<char>)
    ensures
        final(out)@ == old(out)@ + join(string_views(items@), sep@),
{
    let mut j: usize = 0;
    while j < items.len()
        invariant
            j <= items@.len(),
            out@ == old(out)@ + join(string_views(items@.subrange(0, j as int)), sep@),
        decreases items@.len() - j,
    {
        let ghost prev = string_views(items@.subrange(0, j as int));
        let ghost next = string_views(items@.subrange(0, j + 1));
        assert(next.drop_last() =~= prev);
        if j > 0 {
            let mut s = sep.clone();
            out.append(&mut s);
        }
        append_str(out, &items[j]);
        if j == 0 {
            assert(join(prev, sep@) =~= seq![]);
        }
        assert(out@ =~= old(out)@ + join(next, sep@));
        j = j + 1;
    }
    assert(items@.subrange(0, j as int) =~= items@);
}

/// Appends the attributes as `key: value`, separated by commas.
fn append_attrs(out: &mut Vec<char>, attrs: &Vec<(String, String)>)
    ensures
        final(out)@ == old(out)@ + join(
            attrs@.map_values(|p: (String, String)| attr_text(p)),
            seq![','],
        ),
{
    let mut j: usize = 0;
    while j < attrs.len()
        invariant
            j <= attrs@.len(),
            out@ == old(out)@ + join(
                attrs@.subrange(0, j as int).map_values(|p: (String, String)| attr_text(p)),
                seq![','],
            ),
        decreases attrs@.len() - j,
    {
        let ghost prev = attrs@.subrange(0, j as int).map_values(
            |p: (String, String)| attr_text(p),
        );
        let ghost next = attrs@.subrange(0, j + 1).map_values(
            |p: (String, String)| attr_text(p),
        );
        assert(next.drop_last() =~= prev);
        if j > 0 {
            out.push(',');
        }
        let (key, value) = &attrs[j];
        append_str(out, key);
        out.push(':');
        out.push(' ');
        append_str(out, value);
        if j == 0 {
            assert(join(prev, seq![',']) =~= seq![]);
        }
        assert(next.last() == attr_text(attrs@[j as int]));
        assert(out@ =~= old(out)@ + join(next, seq![',']));
        j = j + 1;
    }
    assert(attrs@.subrange(0, j as int) =~= attrs@);
}

/// Appends what a control of kind `k` writes for the element.
fn append_projection(out: &mut Vec<char>, element: &ElementData, k: ControlKind)
    ensures
        final(out)@ == old(out)@ + projection(*element, k),
{
    match k {
        ControlKind::Id => {
            match &element.id {
                Some(s) => append_str(out, s),
                None => {
                    assert(old(out)@ + seq![] =~= old(out)@);
                },
            }
        },
        ControlKind::Name => append_str(out, &element.name),
        ControlKind::Classes => {
            let comma: Vec<char> = vec![','];
            assert(comma@ =~= seq![',']);
            append_joined(out, &element.classes, &comma);
        },
        ControlKind::Text => {
            let nothing: Vec<char> = Vec::new();
            assert(nothing@ =~= seq![]);
            append_joined(out, &element.texts, &nothing);
        },
        ControlKind::Html => append_str(out, &element.html),
        ControlKind::Attrs => append_attrs(out, &element.attrs),
    }
}

/// Renders an element through a parsed format: literals are written as they
/// stand, each control is replaced by the element's property.
pub fn render_element(element: &ElementData, format: &[Segment]) -> (r: String)
    ensures
        r@ == rendered(*element, segment_views(format@)),
{
    let mut out: Vec<char> = Vec::new();
    let mut j: usize = 0;
    while j < format.len()
        invariant
            j <= format@.len(),
            out@ == rendered(*element, segment_views(format@.subrange(0, j as int))),
        decreases format@.len() - j,
    {
        let ghost prev = segment_views(format@.subrange(0, j as int));
        let ghost next = segment_views(format@.subrange(0, j + 1));
        assert(next.drop_last() =~= prev);
        assert(next.last() == format@[j as int]@);
        match &format[j] {
            Segment::Literal(t) => append_str(&mut out, t),
            Segment::Control(k) => append_projection(&mut out, element, *k),
        }
        j = j + 1;
    }
    assert(format@.subrange(0, j as int) =~= format@);
    string_from_chars(&out)
}

} // verus!
