//! Pairing selectors with formats and rendering the matched elements.

use vstd::prelude::*;
use crate::format::{
    chars_of, marker, occurs_at, parse_format, parsed_format, segment_views, string_from_chars,
    ControlKind, Segment, SegmentView,
};
use crate::render::{
    append_joined, append_str, join, render_element, rendered, string_views, ElementData,
};

verus! {

/// Why a run stops.
#[derive(Clone, Debug, PartialEq, Eq)]
pub enum RunError {
    /// No selector was given.
    Usage,
    /// The document could not be fetched from the given URL.
    Fetch(String),
    /// The document could not be read from the given path.
    Read(String),
    /// The given selector is not valid CSS.
    Selector(String),
    /// The combined selector matched no element of the document.
    NoMatch { selector: String, location: String },
}

/// The format used for a selector that has none: the element's text, then a
/// newline.
pub open spec fn default_format_text() -> Seq<char> {
    marker(ControlKind::Text) + seq!['\\', 'n']
}

/// The format text bound to selector `i`: the `i`-th given format, or the
/// default where fewer formats than selectors were given.
pub open spec fn format_text_for(formats: Seq<String>, i: int) -> Seq<char> {
    if i < formats.len() {
        formats[i]@
    } else {
        default_format_text()
    }
}

/// The values of a list of parsed formats.
pub open spec fn format_views(formats: Seq<Vec<Segment>>) -> Seq<Seq<SegmentView>> {
    formats.map_values(|f: Vec<Segment>| segment_views(f@))
}

/// The format text used for a selector that has none.
pub fn default_format() -> (r: String)
    ensures
        r@ == default_format_text(),
{
    let v: Vec<char> = vec!['\\', 't', 'e', 'x', 't', '\\', 'n'];
    assert(v@ =~= default_format_text());
    string_from_chars(&v)
}

/// Parses one format per selector: the `i`-th given format for selector `i`,
/// the default format for each selector beyond the given formats.
pub fn bind_formats(n_selectors: usize, formats: &Vec<String>) -> (r: Vec<Vec<Segment>>)
    ensures
        r@.len() == n_selectors,
        forall|i: int|
            0 <= i < n_selectors ==> #[trigger] segment_views(r@[i]@) == parsed_format(
                format_text_for(formats@, i),
            ),
{
    let mut r: Vec<Vec<Segment>> = Vec::new();
    let mut i: usize = 0;
    while i < n_selectors
        invariant
            i <= n_selectors,
            r@.len() == i,
            forall|j: int|
                0 <= j < i ==> #[trigger] segment_views(r@[j]@) == parsed_format(
                    format_text_for(formats@, j),
                ),
        decreases n_selectors - i,
    {
        if i < formats.len() {
            r.push(parse_format(&formats[i]));
        } else {
            let d = default_format();
            r.push(parse_format(&d));
        }
        i = i + 1;
    }
    r
}

/// Refuses a run without selectors.
pub fn check_selectors(selectors: &Vec<String>) -> (r: Result<(), RunError>)
    ensures
        r is Err <==> selectors@.len() == 0,
        r is Err ==> r == Err::<(), RunError>(RunError::Usage),
{
    if selectors.len() == 0 {
        Err(RunError::Usage)
    } else {
        Ok(())
    }
}

/// The selectors joined by commas into one compound selector.
pub fn join_selectors(selectors: &Vec<String>) -> (r: String)
    ensures
        r@ == join(string_views(selectors@), seq![',']),
{
    let mut out: Vec<char> = Vec::new();
    let comma: Vec<char> = vec![','];
    assert(comma@ =~= seq![',']);
    append_joined(&mut out, selectors, &comma);
    assert(out@ =~= join(string_views(selectors@), seq![',']));
    string_from_chars(&out)
}

/// `s` starts with `p`.
pub open spec fn has_prefix(s: Seq<char>, p: Seq<char>) -> bool {
    p.len() <= s.len() && s.subrange(0, p.len() as int) == p
}

/// Whether a document location names a URL to fetch rather than a file: it
/// starts with `http://` or `https://`.
pub fn is_url(location: &String) -> (r: bool)
    ensures
        r == (has_prefix(location@, seq!['h', 't', 't', 'p', ':', '/', '/']) || has_prefix(
            location@,
            seq!['h', 't', 't', 'p', 's', ':', '/', '/'],
        )),
{
    let t = chars_of(location.as_str());
    let plain: Vec<char> = vec!['h', 't', 't', 'p', ':', '/', '/'];
    let secure: Vec<char> = vec!['h', 't', 't', 'p', 's', ':', '/', '/'];
    assert(plain@ =~= seq!['h', 't', 't', 'p', ':', '/', '/']);
    assert(secure@ =~= seq!['h', 't', 't', 'p', 's', ':', '/', '/']);
    occurs_at(&t, &plain, 0) || occurs_at(&t, &secure, 0)
}

/// Index `i` is the first position of `flags` that holds.
pub open spec fn is_first_true(flags: Seq<bool>, i: int) -> bool {
    0 <= i < flags.len() && flags[i] && forall|j: int| 0 <= j < i ==> !flags[j]
}

/// Some position of `flags` holds.
pub open spec fn satisfies_some(flags: Seq<bool>) -> bool {
    exists|s: int| 0 <= s < flags.len() && #[trigger] flags[s]
}

/// The first position of `flags` that holds (meaningful where one does).
pub open spec fn first_true(flags: Seq<bool>) -> int {
    choose|i: int| is_first_true(flags, i)
}

/// Where an element satisfies several selectors, the one with the lowest index
/// decides its format.
pub proof fn lemma_lowest_index_wins(flags: Seq<bool>, i: int)
    requires
        0 <= i < flags.len(),
        flags[i],
        forall|j: int| 0 <= j < i ==> !flags[j],
    ensures
        first_true(flags) == i,
{
    assert(is_first_true(flags, i));
    assert(is_first_true(flags, first_true(flags)));
}

/// The first selector that an element satisfies, given for each selector in
/// order whether the element satisfies it; `None` where it satisfies none.
pub fn first_match(flags: &Vec<bool>) -> (r: Option<usize>)
    ensures
        match r {
            Some(i) => is_first_true(flags@, i as int) && first_true(flags@) == i,
            None => forall|j: int| 0 <= j < flags@.len() ==> !flags@[j],
        },
{
    let mut i: usize = 0;
    while i < flags.len()
        invariant
            i <= flags@.len(),
            forall|j: int| 0 <= j < i ==> !flags@[j],
        decreases flags@.len() - i,
    {
        if flags[i] {
            assert(is_first_true(flags@, i as int));
            let ghost c = first_true(flags@);
            assert(is_first_true(flags@, c));
            return Some(i);
        }
        i = i + 1;
    }
    None
}

/// What a format writes for each element of a list, in order.
pub open spec fn group_output(elements: Seq<ElementData>, format: Seq<SegmentView>) -> Seq<char>
    decreases elements.len(),
{
    if elements.len() == 0 {
        seq![]
    } else {
        group_output(elements.drop_last(), format) + rendered(elements.last(), format)
    }
}

/// Disparate output: for each selector in order, all of its matches rendered
/// with its own format.
pub open spec fn disparate_output(
    groups: Seq<Vec<ElementData>>,
    formats: Seq<Seq<SegmentView>>,
) -> Seq<char>
    decreases groups.len(),
{
    if groups.len() == 0 {
        seq![]
    } else {
        disparate_output(groups.drop_last(), formats) + group_output(
            groups.last()@,
            formats[groups.len() - 1],
        )
    }
}

/// Combined output of the first `n` matched elements: each rendered with the
/// format of the first selector that it satisfies.
pub open spec fn combined_output(
    elements: Seq<ElementData>,
    membership: Seq<Vec<bool>>,
    formats: Seq<Seq<SegmentView>>,
    n: int,
) -> Seq<char>
    decreases n,
{
    if n <= 0 {
        seq![]
    } else {
        combined_output(elements, membership, formats, n - 1) + rendered(
            elements[n - 1],
            formats[first_true(membership[n - 1]@)],
        )
    }
}

proof fn lemma_disparate_prefix(
    groups: Seq<Vec<ElementData>>,
    formats: Seq<Seq<SegmentView>>,
    i: int,
    j: int,
)
    requires
        0 <= i <= j <= groups.len(),
    ensures
        disparate_output(groups.subrange(0, i), formats).is_prefix_of(
            disparate_output(groups.subrange(0, j), formats),
        ),
    decreases j - i,
{
    if i < j {
        lemma_disparate_prefix(groups, formats, i, j - 1);
        assert(groups.subrange(0, j).drop_last() =~= groups.subrange(0, j - 1));
        let a = disparate_output(groups.subrange(0, i), formats);
        let b = disparate_output(groups.subrange(0, j - 1), formats);
        let c = disparate_output(groups.subrange(0, j), formats);
        assert(c == b + group_output(groups[j - 1]@, formats[j - 1]));
        assert(a =~= c.subrange(0, a.len() as int));
    }
}

/// In disparate mode, the output of selector `i`'s matches follows that of
/// every earlier selector and comes whole before anything of a later one.
pub proof fn lemma_disparate_grouped(
    groups: Seq<Vec<ElementData>>,
    formats: Seq<Seq<SegmentView>>,
    i: int,
)
    requires
        0 <= i < groups.len(),
    ensures
        (disparate_output(groups.subrange(0, i), formats) + group_output(
            groups[i]@,
            formats[i],
        )).is_prefix_of(disparate_output(groups, formats)),
{
    lemma_disparate_prefix(groups, formats, i + 1, groups.len() as int);
    assert(groups.subrange(0, i + 1).drop_last() =~= groups.subrange(0, i));
    assert(groups.subrange(0, groups.len() as int) =~= groups);
}

/// Renders a list of elements with one format, in order.
fn render_group(out: &mut Vec<char>, elements: &Vec<ElementData>, format: &Vec<Segment>)
    ensures
        final(out)@ == old(out)@ + group_output(elements@, segment_views(format@)),
{
    let mut j: usize = 0;
    while j < elements.len()
        invariant
            j <= elements@.len(),
            out@ == old(out)@ + group_output(
                elements@.subrange(0, j as int),
                segment_views(format@),
            ),
        decreases elements@.len() - j,
    {
        let ghost next = elements@.subrange(0, j + 1);
        assert(next.drop_last() =~= elements@.subrange(0, j as int));
        let s = render_element(&elements[j], format.as_slice());
        append_str(out, &s);
        assert(out@ =~= old(out)@ + group_output(next, segment_views(format@)));
        j = j + 1;
    }
    assert(elements@.subrange(0, j as int) =~= elements@);
}

/// Disparate mode: for each selector in turn, renders every element that it
/// matched with that selector's format, all of one selector's matches before
/// any of the next.
pub fn render_disparate(groups: &Vec<Vec<ElementData>>, formats: &Vec<Vec<Segment>>) -> (r: String)
    requires
        groups@.len() == formats@.len(),
    ensures
        r@ == disparate_output(groups@, format_views(formats@)),
{
    let mut out: Vec<char> = Vec::new();
    let mut i: usize = 0;
    while i < groups.len()
        invariant
            i <= groups@.len(),
            groups@.len() == formats@.len(),
            out@ == disparate_output(groups@.subrange(0, i as int), format_views(formats@)),
        decreases groups@.len() - i,
    {
        let ghost next = groups@.subrange(0, i + 1);
        assert(next.drop_last() =~= groups@.subrange(0, i as int));
        render_group(&mut out, &groups[i], &formats[i]);
        assert(out@ =~= disparate_output(next, format_views(formats@)));
        i = i + 1;
    }
    assert(groups@.subrange(0, i as int) =~= groups@);
    string_from_chars(&out)
}

/// Combined mode: renders the elements that the compound selector matched,
/// in document order, each once, with the format of the first selector that
/// it satisfies. `membership[e][s]` tells whether element `e` satisfies
/// selector `s`. No element at all is an error naming the compound selector
/// and the location of the document.
pub fn render_combined(
    selectors: &Vec<String>,
    location: &String,
    elements: &Vec<ElementData>,
    membership: &Vec<Vec<bool>>,
    formats: &Vec<Vec<Segment>>,
) -> (r: Result<String, RunError>)
    requires
        elements@.len() == membership@.len(),
        formats@.len() == selectors@.len(),
        forall|e: int| 0 <= e < membership@.len() ==> #[trigger] membership@[e]@.len() == selectors@.len(),
        forall|e: int| 0 <= e < membership@.len() ==> satisfies_some(#[trigger] membership@[e]@),
    ensures
        elements@.len() == 0 <==> r is Err,
        match r {
            Ok(text) => text@ == combined_output(
                elements@,
                membership@,
                format_views(formats@),
                elements@.len() as int,
            ),
            Err(RunError::NoMatch { selector, location: loc }) => selector@ == join(
                string_views(selectors@),
                seq![','],
            ) && loc@ == location@,
            Err(_) => false,
        },
{
    if elements.len() == 0 {
        return Err(RunError::NoMatch { selector: join_selectors(selectors), location: location.clone() });
    }
    let mut out: Vec<char> = Vec::new();
    let mut i: usize = 0;
    while i < elements.len()
        invariant
            i <= elements@.len(),
            elements@.len() == membership@.len(),
            formats@.len() == selectors@.len(),
            forall|e: int| 0 <= e < membership@.len() ==> #[trigger] membership@[e]@.len() == selectors@.len(),
            forall|e: int|
                0 <= e < membership@.len() ==> satisfies_some(#[trigger] membership@[e]@),
            out@ == combined_output(elements@, membership@, format_views(formats@), i as int),
        decreases elements@.len() - i,
    {
        let m = first_match(&membership[i]);
        match m {
            Some(index) => {
                let s = render_element(&elements[i], formats[index].as_slice());
                append_str(&mut out, &s);
            },
            None => {
                assert(satisfies_some(membership@[i as int]@));
                assert(false);
            },
        }
        i = i + 1;
    }
    Ok(string_from_chars(&out))
}

} // verus!
