//! Link extraction: the anchor texts of a fetched listing page, filtered
//! against a set of excluded substrings and stripped of one trailing path
//! separator each, in document order.
use vstd::prelude::*;
use vstd::string::*;

use crate::text::{
    contains_seq, contains_sub, lemma_trim_keeps_absent, trim_slash, trim_trailing_slash,
};

verus! {

/// The text of each anchor element of the HTML document `html`, in document
/// order: for each anchor, the concatenation of its text nodes.
pub uninterp spec fn anchor_texts_of(html: Seq<char>) -> Seq<Seq<char>>;

/// `text` contains none of the strings in `filters` as a substring.
pub open spec fn keeps(text: Seq<char>, filters: Seq<Seq<char>>) -> bool {
    forall|j: int| 0 <= j < filters.len() ==> !contains_seq(text, filters[j])
}

/// The entries kept from the anchor texts `texts`: those whose raw text
/// contains no filter string, in order, each with one trailing '/' removed.
pub open spec fn extract_spec(texts: Seq<Seq<char>>, filters: Seq<Seq<char>>) -> Seq<Seq<char>>
    decreases texts.len(),
{
    if texts.len() == 0 {
        Seq::empty()
    } else {
        let rest = extract_spec(texts.drop_last(), filters);
        if keeps(texts.last(), filters) {
            rest.push(trim_slash(texts.last()))
        } else {
            rest
        }
    }
}

/// Relies on scraper: `Html::parse_document` builds a best-effort tree from
/// any input, a selector for anchor elements picks out every anchor, and
/// `ElementRef::text` yields each anchor's text nodes; the resulting texts
/// are a function of the document text alone.
#[verifier::external_body]
fn anchor_texts(html: &str) -> (r: Vec<String>)
    ensures
        r.deep_view() == anchor_texts_of(html@),
{
    let document = scraper::Html::parse_document(html);
    let anchors = scraper::Selector::parse("a").unwrap();
    let mut texts = Vec::new();
    for element in document.select(&anchors) {
        let mut text = String::new();
        for piece in element.text() {
            text.push_str(piece);
        }
        texts.push(text);
    }
    texts
}

/// Decides whether `text` contains none of the strings in `filters`.
pub fn keeps_entry(text: &str, filters: &Vec<String>) -> (b: bool)
    ensures
        b == keeps(text@, filters.deep_view()),
{
    let mut j: usize = 0;
    while j < filters.len()
        invariant
            j <= filters@.len(),
            forall|k: int| 0 <= k < j ==> !contains_seq(text@, filters.deep_view()[k]),
        decreases filters@.len() - j,
    {
        let hit = contains_sub(text, filters[j].as_str());
        if hit {
            assert(contains_seq(text@, filters.deep_view()[j as int]));
            return false;
        }
        j = j + 1;
    }
    true
}

/// Keeps the entries of `texts` that contain no filter string, in order, each
/// with one trailing '/' removed.
pub fn filter_entries(texts: &Vec<String>, filters: &Vec<String>) -> (r: Vec<String>)
    ensures
        r.deep_view() == extract_spec(texts.deep_view(), filters.deep_view()),
{
    let ghost all = texts.deep_view();
    let mut out: Vec<String> = Vec::new();
    let mut i: usize = 0;
    while i < texts.len()
        invariant
            all == texts.deep_view(),
            i <= texts@.len(),
            out.deep_view() == extract_spec(all.take(i as int), filters.deep_view()),
        decreases texts@.len() - i,
    {
        proof {
            assert(all.take(i + 1).drop_last() =~= all.take(i as int));
            assert(all.take(i + 1).last() == texts@[i as int]@);
        }
        let entry = &texts[i];
        if keeps_entry(entry.as_str(), filters) {
            let trimmed = trim_trailing_slash(entry.as_str());
            out.push(trimmed);
            assert(out.deep_view() =~= extract_spec(all.take(i + 1), filters.deep_view()));
        } else {
            assert(out.deep_view() =~= extract_spec(all.take(i + 1), filters.deep_view()));
        }
        i = i + 1;
    }
    proof {
        assert(all.take(texts@.len() as int) =~= all);
    }
    out
}

/// Parses `html`, takes the text of every anchor element in document order,
/// drops each whose raw text contains one of the strings in `filters`, and
/// strips one trailing '/' from each kept entry.
pub fn extract(html: &str, filters: &Vec<String>) -> (r: Vec<String>)
    ensures
        r.deep_view() == extract_spec(anchor_texts_of(html@), filters.deep_view()),
{
    let texts = anchor_texts(html);
    filter_entries(&texts, filters)
}

/// The extracted entries are exactly the anchor texts that pass the filters,
/// in their original order, each trimmed of one trailing '/': so their number
/// equals the number of anchors whose text contains no filter string.
pub proof fn lemma_extract_filtered(texts: Seq<Seq<char>>, filters: Seq<Seq<char>>)
    ensures
        extract_spec(texts, filters) == texts.filter(|t: Seq<char>| keeps(t, filters)).map_values(
            |t: Seq<char>| trim_slash(t),
        ),
        extract_spec(texts, filters).len() == texts.filter(
            |t: Seq<char>| keeps(t, filters),
        ).len(),
    decreases texts.len(),
{
    reveal(Seq::filter);
    let pred = |t: Seq<char>| keeps(t, filters);
    let f = |t: Seq<char>| trim_slash(t);
    if texts.len() == 0 {
        assert(extract_spec(texts, filters) =~= texts.filter(pred).map_values(f));
    } else {
        lemma_extract_filtered(texts.drop_last(), filters);
        assert(extract_spec(texts, filters) =~= texts.filter(pred).map_values(f));
    }
}

/// Whatever the filter set, no extracted entry contains any filter string as
/// a substring: filtering is decided on the raw anchor text, and trimming one
/// trailing '/' cannot introduce a substring.
pub proof fn lemma_no_filter_survives(texts: Seq<Seq<char>>, filters: Seq<Seq<char>>)
    ensures
        forall|i: int, j: int|
            0 <= i < extract_spec(texts, filters).len() && 0 <= j < filters.len()
                ==> !contains_seq(#[trigger] extract_spec(texts, filters)[i], #[trigger] filters[j]),
    decreases texts.len(),
{
    if texts.len() > 0 {
        lemma_no_filter_survives(texts.drop_last(), filters);
        let rest = extract_spec(texts.drop_last(), filters);
        let whole = extract_spec(texts, filters);
        if keeps(texts.last(), filters) {
            assert forall|i: int, j: int|
                0 <= i < whole.len() && 0 <= j < filters.len() implies !contains_seq(
                whole[i],
                filters[j],
            ) by {
                if i < rest.len() {
                    assert(whole[i] == rest[i]);
                } else {
                    assert(whole[i] == trim_slash(texts.last()));
                    assert(!contains_seq(texts.last(), filters[j]));
                    lemma_trim_keeps_absent(texts.last(), filters[j]);
                }
            }
        }
    }
}

} // verus!
