//! The traversal step: the chosen entry becomes a new path segment of the
//! accumulated URL, and the result is terminal exactly when it ends in one of
//! the recognized downloadable-artifact extensions.
use vstd::prelude::*;
use vstd::string::*;

use crate::text::{ends_with_str, lemma_suffix_of_concat, suffix_of};

verus! {

/// `url` ends in one of the recognized downloadable-artifact extensions.
pub open spec fn is_terminal_spec(url: Seq<char>) -> bool {
    ||| suffix_of(url, ".tar.xz"@)
    ||| suffix_of(url, ".zip"@)
    ||| suffix_of(url, ".aar"@)
    ||| suffix_of(url, ".aab"@)
    ||| suffix_of(url, ".apk"@)
    ||| suffix_of(url, ".tpz"@)
}

/// Decides whether `url` is a terminal (downloadable-file) URL.
pub fn is_terminal(url: &str) -> (b: bool)
    ensures
        b == is_terminal_spec(url@),
{
    ends_with_str(url, ".tar.xz") || ends_with_str(url, ".zip") || ends_with_str(url, ".aar")
        || ends_with_str(url, ".aab") || ends_with_str(url, ".apk") || ends_with_str(url, ".tpz")
}

/// Appends `seg` to `base` as one new '/'-separated path segment.
pub fn append_segment(base: &str, seg: &str) -> (r: String)
    ensures
        r@ == base@ + "/"@ + seg@,
{
    let mut r = String::from_str(base);
    r.append("/");
    r.append(seg);
    r
}

/// One traversal transition: either the accumulated URL is the next listing
/// to fetch, or it is terminal and traversal stops.
pub enum NavStep {
    /// The new URL names another listing page to descend into.
    Descend(String),
    /// The new URL names a downloadable file: traversal is over.
    Terminal(String),
}

/// Extends the accumulated URL `base` with the chosen entry `chosen` and
/// decides whether traversal descends further or stops at a terminal URL.
pub fn navigate_step(base: &str, chosen: &str) -> (r: NavStep)
    ensures
        ({
            let url = base@ + "/"@ + chosen@;
            match r {
                NavStep::Descend(u) => u@ == url && !is_terminal_spec(url),
                NavStep::Terminal(u) => u@ == url && is_terminal_spec(url),
            }
        }),
{
    let url = append_segment(base, chosen);
    if is_terminal(url.as_str()) {
        NavStep::Terminal(url)
    } else {
        NavStep::Descend(url)
    }
}

/// Traversal stops in exactly one step when the chosen entry itself already
/// ends in a recognized extension: the URL built from it is terminal at once.
pub proof fn lemma_terminal_entry_stops(base: Seq<char>, chosen: Seq<char>)
    requires
        is_terminal_spec(chosen),
    ensures
        is_terminal_spec(base + "/"@ + chosen),
{
    let prefix = base + "/"@;
    if suffix_of(chosen, ".tar.xz"@) {
        lemma_suffix_of_concat(prefix, chosen, ".tar.xz"@);
    } else if suffix_of(chosen, ".zip"@) {
        lemma_suffix_of_concat(prefix, chosen, ".zip"@);
    } else if suffix_of(chosen, ".aar"@) {
        lemma_suffix_of_concat(prefix, chosen, ".aar"@);
    } else if suffix_of(chosen, ".aab"@) {
        lemma_suffix_of_concat(prefix, chosen, ".aab"@);
    } else if suffix_of(chosen, ".apk"@) {
        lemma_suffix_of_concat(prefix, chosen, ".apk"@);
    } else {
        lemma_suffix_of_concat(prefix, chosen, ".tpz"@);
    }
}

/// The filter strings applied to the root listing: known non-version noise
/// entries.
pub fn root_filters() -> (r: Vec<String>)
    ensures
        r.deep_view() == seq![
            "Parent Directory"@,
            "toolchains"@,
            "patreon"@,
            "media"@,
            "testing"@,
        ],
{
    let mut v: Vec<String> = Vec::new();
    v.push(String::from_str("Parent Directory"));
    v.push(String::from_str("toolchains"));
    v.push(String::from_str("patreon"));
    v.push(String::from_str("media"));
    v.push(String::from_str("testing"));
    proof {
        assert(v.deep_view() =~= seq![
            "Parent Directory"@,
            "toolchains"@,
            "patreon"@,
            "media"@,
            "testing"@,
        ]);
    }
    v
}

/// The filter strings applied to every listing below the root: only the
/// parent link is dropped.
pub fn sub_filters() -> (r: Vec<String>)
    ensures
        r.deep_view() == seq!["Parent Directory"@],
{
    let mut v: Vec<String> = Vec::new();
    v.push(String::from_str("Parent Directory"));
    proof {
        assert(v.deep_view() =~= seq!["Parent Directory"@]);
    }
    v
}

/// The navigator's accumulator: the URL built so far, and how many segments
/// below the root it stands, which decides the filter set of the next
/// listing.
pub struct NavigationState {
    /// The current accumulated URL.
    pub url: String,
    /// How many segments have been appended below the root.
    pub depth: u64,
}

impl NavigationState {
    /// Starts traversal at the root listing URL.
    pub fn start(root: String) -> (s: Self)
        ensures
            s.url@ == root@,
            s.depth == 0,
    {
        NavigationState { url: root, depth: 0 }
    }

    /// The filter strings for the current depth: the root level excludes the
    /// known non-version noise entries, every level below it only the parent
    /// link.
    pub fn filters(&self) -> (r: Vec<String>)
        ensures
            self.depth == 0 ==> r.deep_view() == seq![
                "Parent Directory"@,
                "toolchains"@,
                "patreon"@,
                "media"@,
                "testing"@,
            ],
            self.depth != 0 ==> r.deep_view() == seq!["Parent Directory"@],
    {
        if self.depth == 0 {
            root_filters()
        } else {
            sub_filters()
        }
    }

    /// Applies the chosen entry: the accumulated URL grows by one segment,
    /// and either traversal descends into it as the next listing page, or
    /// the new URL is terminal, traversal is over, and that URL is returned.
    pub fn choose_entry(&mut self, chosen: &str) -> (r: Option<String>)
        requires
            old(self).depth < u64::MAX,
        ensures
            ({
                let url = old(self).url@ + "/"@ + chosen@;
                final(self).url@ == url && match r {
                    None => final(self).depth == old(self).depth + 1 && !is_terminal_spec(url),
                    Some(t) => t@ == url && final(self).depth == old(self).depth
                        && is_terminal_spec(url),
                }
            }),
    {
        match navigate_step(self.url.as_str(), chosen) {
            NavStep::Terminal(url) => {
                self.url = url.clone();
                Some(url)
            },
            NavStep::Descend(url) => {
                self.url = url;
                self.depth = self.depth + 1;
                None
            },
        }
    }
}

/// Reverses the extracted entries, so that the most recently published one
/// is offered first.
pub fn reversed(entries: Vec<String>) -> (r: Vec<String>)
    ensures
        r@ == entries@.reverse(),
{
    let ghost all = entries@;
    let mut rest = entries;
    let mut r: Vec<String> = Vec::new();
    proof {
        assert(all.subrange(0, all.len() as int) =~= all);
    }
    while rest.len() > 0
        invariant
            rest@.len() + r@.len() == all.len(),
            rest@ == all.subrange(0, rest@.len() as int),
            forall|j: int| 0 <= j < r@.len() ==> r@[j] == all[all.len() - 1 - j],
        decreases rest@.len(),
    {
        let e = match rest.pop() {
            Some(e) => e,
            None => {
                proof {
                    assert(false);
                }
                String::new()
            },
        };
        r.push(e);
        proof {
            assert(rest@ =~= all.subrange(0, rest@.len() as int));
        }
    }
    proof {
        assert(r@ =~= all.reverse());
    }
    r
}

} // verus!
