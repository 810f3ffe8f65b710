//! What a download run decides: which catalogue page to read for a target,
//! which button to look for, which link on a page to follow, how the files
//! are named and where they go, how results are sorted, how many downloads
//! run at once, and what is reported.

use vstd::prelude::*;
use vstd::string::StringExecFns;
use crate::scrape::{css_select, element_view, element_views, opt_string_view, select_elements, ElementData};
use crate::text::{
    before_first, concatenate, lemma_before_first_is_clean_prefix, lemma_before_first_stops_at_sep, lemma_replace_removes, lowercase,
    replace_char, spec_before_first, spec_contains,
    spec_ends_with, spec_replace_char, str_contains, str_ends_with, string_views, to_lowercase,
};
use crate::app::{
    mode_targets, spec_button_text, spec_target_dir, DownloadArgs, DownloadArgsView, DownloadMode,
};
use crate::path::{is_local_name, join_path, lemma_join_stays_inside, spec_is_local_name, spec_join};

verus! {

/// The two catalogues of the site.
#[derive(Clone, Copy, Debug, PartialEq, Eq)]
pub enum DownloadTarget {
    Textures,
    Skybox,
}

impl DownloadTarget {
    /// The address of the catalogue page that lists the target's items.
    pub open spec fn spec_listing_url(self) -> Seq<char> {
        match self {
            DownloadTarget::Textures => "https://freestylized.com/all-textures/"@,
            DownloadTarget::Skybox => "https://freestylized.com/all-skybox/"@,
        }
    }

    /// The word that names the target's items in reports.
    pub open spec fn spec_kind(self) -> Seq<char> {
        match self {
            DownloadTarget::Textures => "texture"@,
            DownloadTarget::Skybox => "skybox"@,
        }
    }

    /// The address of the catalogue page that lists the target's items.
    pub fn listing_url(&self) -> (res: String)
        ensures
            res@ == self.spec_listing_url(),
    {
        match self {
            DownloadTarget::Textures => String::from_str("https://freestylized.com/all-textures/"),
            DownloadTarget::Skybox => String::from_str("https://freestylized.com/all-skybox/"),
        }
    }

    /// The word that names the target's items in reports.
    pub fn kind(&self) -> (res: String)
        ensures
            res@ == self.spec_kind(),
    {
        match self {
            DownloadTarget::Textures => String::from_str("texture"),
            DownloadTarget::Skybox => String::from_str("skybox"),
        }
    }
}


/// Where a file comes from: a direct archive link or a Google Drive link.
#[derive(Clone, Debug, PartialEq, Eq)]
pub enum DownloadInfo {
    Zip(String),
    GDrive(String),
}

/// A file to download: where from, and under which name.
#[derive(Clone, Debug, PartialEq, Eq)]
pub struct Download {
    pub info: DownloadInfo,
    pub filename: String,
}

/// What an item's page yields: a file to download, or the page itself when it
/// holds no usable link.
#[derive(Clone, Debug, PartialEq, Eq)]
pub enum ExtractLinkResult {
    Found(Download),
    Missed(String),
}

/// The two kinds of link.
#[derive(Clone, Copy, Debug, PartialEq, Eq)]
pub enum LinkKind {
    Zip,
    GDrive,
}

/// A file to download, as values.
pub struct DownloadView {
    pub kind: LinkKind,
    pub url: Seq<char>,
    pub filename: Seq<char>,
}

/// What an item's page yields, as values.
pub enum ExtractView {
    Found(DownloadView),
    Missed(Seq<char>),
}

impl View for Download {
    type V = DownloadView;

    open spec fn view(&self) -> DownloadView {
        match self.info {
            DownloadInfo::Zip(u) => DownloadView {
                kind: LinkKind::Zip,
                url: u@,
                filename: self.filename@,
            },
            DownloadInfo::GDrive(u) => DownloadView {
                kind: LinkKind::GDrive,
                url: u@,
                filename: self.filename@,
            },
        }
    }
}

impl View for ExtractLinkResult {
    type V = ExtractView;

    open spec fn view(&self) -> ExtractView {
        match self {
            ExtractLinkResult::Found(d) => ExtractView::Found(d@),
            ExtractLinkResult::Missed(p) => ExtractView::Missed(p@),
        }
    }
}

impl Download {
    /// A download of the archive at `url`, saved as `filename`.
    pub fn zip(url: String, filename: String) -> (res: Download)
        ensures
            res@ == (DownloadView { kind: LinkKind::Zip, url: url@, filename: filename@ }),
    {
        Download { info: DownloadInfo::Zip(url), filename }
    }

    /// A download of the Google Drive file at `url`, saved as `filename`.
    pub fn gdrive(url: String, filename: String) -> (res: Download)
        ensures
            res@ == (DownloadView { kind: LinkKind::GDrive, url: url@, filename: filename@ }),
    {
        Download { info: DownloadInfo::GDrive(url), filename }
    }

    /// The address to fetch, whatever the kind of link.
    pub fn url(&self) -> (res: &String)
        ensures
            res@ == self@.url,
    {
        match &self.info {
            DownloadInfo::Zip(u) => u,
            DownloadInfo::GDrive(u) => u,
        }
    }
}

/// How a link found on `page` is taken: an address that ends with `.zip` is an
/// archive; one that mentions `drive.google.com` is a Google Drive file; any
/// other leaves the page without a download.
pub open spec fn spec_classify(link: Seq<char>, page: Seq<char>, filename: Seq<char>) -> ExtractView {
    if spec_ends_with(link, ".zip"@) {
        ExtractView::Found(DownloadView { kind: LinkKind::Zip, url: link, filename })
    } else if spec_contains(link, "drive.google.com"@) {
        ExtractView::Found(DownloadView { kind: LinkKind::GDrive, url: link, filename })
    } else {
        ExtractView::Missed(page)
    }
}

/// How a link found on `page` is taken (see [`spec_classify`]).
pub fn classify_link(link: &str, page: &str, filename: &str) -> (res: ExtractLinkResult)
    ensures
        res@ == spec_classify(link@, page@, filename@),
{
    if str_ends_with(link, ".zip") {
        ExtractLinkResult::Found(Download::zip(String::from_str(link), String::from_str(filename)))
    } else if str_contains(link, "drive.google.com") {
        ExtractLinkResult::Found(
            Download::gdrive(String::from_str(link), String::from_str(filename)),
        )
    } else {
        ExtractLinkResult::Missed(String::from_str(page))
    }
}

/// A link element of an item's page: its text in lower case and its address,
/// if it has one.
#[derive(Clone, Debug, PartialEq, Eq)]
pub struct LinkCandidate {
    pub label: String,
    pub href: Option<String>,
}

/// A sequence of link elements as values.
pub open spec fn candidate_views(s: Seq<LinkCandidate>) -> Seq<(Seq<char>, Option<Seq<char>>)> {
    s.map_values(|c: LinkCandidate| (c.label@, opt_string_view(c.href)))
}

/// The outcome of scanning the link elements of `page` in order: the first one
/// whose label holds `button` and that has an address decides, by
/// [`spec_classify`]; when there is none the page is missed.
pub open spec fn spec_select(
    page: Seq<char>,
    filename: Seq<char>,
    candidates: Seq<(Seq<char>, Option<Seq<char>>)>,
    button: Seq<char>,
) -> ExtractView
    decreases candidates.len(),
{
    if candidates.len() == 0 {
        ExtractView::Missed(page)
    } else if spec_contains(candidates[0].0, button) && candidates[0].1 is Some {
        spec_classify(candidates[0].1->0, page, filename)
    } else {
        spec_select(page, filename, candidates.drop_first(), button)
    }
}

/// Scans the link elements of `page` for the download button (see
/// [`spec_select`]); labels and button are compared as given.
pub fn select_download(
    page: &str,
    filename: &str,
    candidates: &Vec<LinkCandidate>,
    button: &str,
) -> (res: ExtractLinkResult)
    ensures
        res@ == spec_select(page@, filename@, candidate_views(candidates@), button@),
{
    let ghost all = candidate_views(candidates@);
    let mut i: usize = 0;
    assert(all.skip(0) =~= all);
    while i < candidates.len()
        invariant
            i <= candidates.len(),
            all == candidate_views(candidates@),
            spec_select(page@, filename@, all, button@) == spec_select(
                page@,
                filename@,
                all.skip(i as int),
                button@,
            ),
        decreases candidates.len() - i,
    {
        let c = &candidates[i];
        assert(all.skip(i as int)[0] == all[i as int]);
        assert(all.skip(i as int).drop_first() =~= all.skip(i + 1));
        if str_contains(c.label.as_str(), button) {
            match &c.href {
                Some(link) => {
                    return classify_link(link.as_str(), page, filename);
                },
                None => {},
            }
        }
        i = i + 1;
    }
    ExtractLinkResult::Missed(String::from_str(page))
}

/// The file name for an item whose page has the title `title`: the part before
/// the first `|`, with every space and every `/` made an underscore, and `.zip`
/// appended. The name is a single path component, so the file stays in the
/// download directory.
pub open spec fn spec_filename(title: Seq<char>) -> Seq<char> {
    spec_replace_char(spec_replace_char(spec_before_first(title, '|'), ' ', '_'), '/', '_')
        + ".zip"@
}

/// The file name for an item whose page has the title `title` (see [`spec_filename`]).
pub fn filename_for_title(title: &str) -> (res: String)
    ensures
        res@ == spec_filename(title@),
{
    let part = before_first(title, '|');
    let spaced = replace_char(part.as_str(), ' ', '_');
    let safe = replace_char(spaced.as_str(), '/', '_');
    concatenate(safe.as_str(), ".zip")
}

/// The title of a page, given what its `title` selector picks out: the text of
/// the first such element, or `unknown_texture` when there is none.
pub open spec fn spec_page_title(titles: Seq<(Seq<char>, Option<Seq<char>>)>) -> Seq<char> {
    if titles.len() > 0 {
        titles[0].0
    } else {
        "unknown_texture"@
    }
}

/// The title of a page, given the elements its `title` selector picks out (see
/// [`spec_page_title`]).
pub fn page_title(titles: &Vec<ElementData>) -> (res: String)
    ensures
        res@ == spec_page_title(element_views(titles@)),
{
    if titles.len() > 0 {
        assert(element_views(titles@)[0] == element_view(titles@[0]));
        titles[0].text.clone()
    } else {
        String::from_str("unknown_texture")
    }
}

/// The file name for the item whose page is `document`: the file name for the
/// page's title (see [`spec_page_title`] and [`spec_filename`]). `None` only if
/// the `title` selector were refused.
pub fn get_filename(document: &str) -> (res: Option<String>)
    ensures
        match css_select(document@, "title"@, "href"@) {
            Some(titles) => res matches Some(f) && f@ == spec_filename(spec_page_title(titles)),
            None => res is None,
        },
{
    match select_elements(document, "title", "href") {
        Some(titles) => {
            let title = page_title(&titles);
            Some(filename_for_title(title.as_str()))
        },
        None => None,
    }
}

/// Link elements as values, with their text in lower case.
pub open spec fn lowered_candidates(
    elements: Seq<(Seq<char>, Option<Seq<char>>)>,
) -> Seq<(Seq<char>, Option<Seq<char>>)> {
    elements.map_values(|e: (Seq<char>, Option<Seq<char>>)| (lowercase(e.0), e.1))
}

/// What the item page `page`, whose HTML is `document`, yields when the button
/// `button` is looked for: the link elements (class `breakdance-link`) are
/// scanned with their text and the button both in lower case (see
/// [`spec_select`]), and a download is named after the page's title. `None`
/// only if a selector were refused.
pub open spec fn spec_extract(page: Seq<char>, document: Seq<char>, button: Seq<char>) -> Option<
    ExtractView,
> {
    match (css_select(document, "title"@, "href"@), css_select(document, ".breakdance-link"@, "href"@)) {
        (Some(titles), Some(links)) => Some(
            spec_select(
                page,
                spec_filename(spec_page_title(titles)),
                lowered_candidates(links),
                lowercase(button),
            ),
        ),
        _ => None,
    }
}

/// What the item page `page`, whose HTML is `document`, yields when the button
/// `button` is looked for (see [`spec_extract`]).
pub fn extract_download_data(page: &str, document: &str, button: &str) -> (res: Option<
    ExtractLinkResult,
>)
    ensures
        match spec_extract(page@, document@, button@) {
            Some(v) => res matches Some(r) && r@ == v,
            None => res is None,
        },
{
    let filename = match get_filename(document) {
        Some(f) => f,
        None => return None,
    };
    let elements = match select_elements(document, ".breakdance-link", "href") {
        Some(e) => e,
        None => return None,
    };
    let button_lower = to_lowercase(button);
    let mut candidates: Vec<LinkCandidate> = Vec::new();
    let mut i: usize = 0;
    while i < elements.len()
        invariant
            i <= elements.len(),
            candidate_views(candidates@) == lowered_candidates(element_views(elements@)).take(
                i as int,
            ),
        decreases elements.len() - i,
    {
        let e: &ElementData = &elements[i];
        let href = match &e.attribute {
            Some(h) => Some(h.clone()),
            None => None,
        };
        let label = to_lowercase(e.text.as_str());
        assert(opt_string_view(href) == opt_string_view(e.attribute));
        let ghost prev = candidates@;
        candidates.push(LinkCandidate { label, href });
        assert(element_views(elements@)[i as int] == element_view(elements@[i as int]));
        assert(candidate_views(candidates@) =~= candidate_views(prev).push(
            (lowercase(e.text@), opt_string_view(e.attribute)),
        ));
        i = i + 1;
        assert(candidate_views(candidates@) =~= lowered_candidates(element_views(elements@)).take(
            i as int,
        ));
    }
    assert(lowered_candidates(element_views(elements@)).take(i as int) =~= lowered_candidates(
        element_views(elements@),
    ));
    Some(select_download(page, filename.as_str(), &candidates, button_lower.as_str()))
}


/// The addresses among the elements, in order, skipping elements without one.
pub open spec fn spec_present_links(elements: Seq<(Seq<char>, Option<Seq<char>>)>) -> Seq<
    Seq<char>,
>
    decreases elements.len(),
{
    if elements.len() == 0 {
        Seq::empty()
    } else {
        let before = spec_present_links(elements.drop_last());
        match elements.last().1 {
            Some(link) => before.push(link),
            None => before,
        }
    }
}

/// `links` with every repetition of an earlier link left out.
pub open spec fn spec_dedup(links: Seq<Seq<char>>) -> Seq<Seq<char>>
    decreases links.len(),
{
    if links.len() == 0 {
        Seq::empty()
    } else {
        let before = spec_dedup(links.drop_last());
        if before.contains(links.last()) {
            before
        } else {
            before.push(links.last())
        }
    }
}

/// Whether `items` holds a string equal to `s`.
pub fn holds_string(items: &Vec<String>, s: &String) -> (res: bool)
    ensures
        res == string_views(items@).contains(s@),
{
    let mut i: usize = 0;
    while i < items.len()
        invariant
            i <= items.len(),
            forall|k: int| 0 <= k < i ==> items@[k]@ != s@,
        decreases items.len() - i,
    {
        if items[i] == *s {
            assert(string_views(items@)[i as int] == s@);
            return true;
        }
        i = i + 1;
    }
    assert forall|k: int| 0 <= k < string_views(items@).len() implies string_views(items@)[k]
        != s@ by {
        assert(string_views(items@)[k] == items@[k]@);
    }
    false
}

/// The item pages listed by the elements: their addresses, each once, in the
/// order of first appearance.
pub fn unique_links(elements: &Vec<ElementData>) -> (res: Vec<String>)
    ensures
        string_views(res@) == spec_dedup(spec_present_links(element_views(elements@))),
{
    let ghost all = element_views(elements@);
    let mut res: Vec<String> = Vec::new();
    let mut i: usize = 0;
    assert(all.take(0) =~= Seq::<(Seq<char>, Option<Seq<char>>)>::empty());
    assert(string_views(res@) =~= Seq::<Seq<char>>::empty());
    while i < elements.len()
        invariant
            i <= elements.len(),
            all == element_views(elements@),
            string_views(res@) == spec_dedup(spec_present_links(all.take(i as int))),
        decreases elements.len() - i,
    {
        assert(all.take(i + 1).drop_last() =~= all.take(i as int));
        assert(all.take(i + 1).last() == all[i as int]);
        assert(all[i as int] == element_view(elements@[i as int]));
        match &elements[i].attribute {
            Some(link) => {
                let ghost p = spec_present_links(all.take(i as int));
                assert(spec_present_links(all.take(i + 1)) == p.push(link@));
                assert(p.push(link@).drop_last() =~= p);
                if !holds_string(&res, link) {
                    let ghost prev = res@;
                    res.push(link.clone());
                    assert(string_views(res@) =~= string_views(prev).push(link@));
                }
            },
            None => {
                assert(spec_present_links(all.take(i + 1)) == spec_present_links(
                    all.take(i as int),
                ));
            },
        }
        i = i + 1;
    }
    assert(all.take(i as int) =~= all);
    res
}

/// The item pages that the catalogue page `document` lists: the addresses of
/// its post image links (`.ee-posts-grid .ee-post .ee-post-image-link`), each
/// once, in the order of first appearance. `None` only if the selector were
/// refused.
pub fn listing_pages(document: &str) -> (res: Option<Vec<String>>)
    ensures
        match css_select(document@, ".ee-posts-grid .ee-post .ee-post-image-link"@, "href"@) {
            Some(links) => res matches Some(pages) && string_views(pages@) == spec_dedup(
                spec_present_links(links),
            ),
            None => res is None,
        },
{
    match select_elements(document, ".ee-posts-grid .ee-post .ee-post-image-link", "href") {
        Some(elements) => Some(unique_links(&elements)),
        None => None,
    }
}

/// A deduplicated list holds each link once, and holds exactly the links of
/// the list it was made from.
pub proof fn lemma_dedup_is_set(links: Seq<Seq<char>>)
    ensures
        spec_dedup(links).no_duplicates(),
        forall|x: Seq<char>| spec_dedup(links).contains(x) <==> links.contains(x),
    decreases links.len(),
{
    if links.len() > 0 {
        lemma_dedup_is_set(links.drop_last());
        let before = spec_dedup(links.drop_last());
        assert forall|x: Seq<char>| spec_dedup(links).contains(x) <==> links.contains(x) by {
            if links.contains(x) {
                let k = choose|k: int| 0 <= k < links.len() && links[k] == x;
                if k < links.len() - 1 {
                    assert(links.drop_last()[k] == x);
                }
            }
            if links.drop_last().contains(x) {
                let k = choose|k: int| 0 <= k < links.drop_last().len() && links.drop_last()[k] == x;
                assert(links[k] == x);
            }
            if !before.contains(links.last()) {
                if before.push(links.last()).contains(x) {
                    let k = choose|k: int| 0 <= k < before.push(links.last()).len() && before.push(links.last())[k] == x;
                    if k < before.len() {
                        assert(before[k] == x);
                    }
                }
                if x == links.last() {
                    assert(before.push(links.last())[before.len() as int] == x);
                }
                if before.contains(x) {
                    let k = choose|k: int| 0 <= k < before.len() && before[k] == x;
                    assert(before.push(links.last())[k] == x);
                }
            }
            if links.contains(x) && x != links.last() {
                let k = choose|k: int| 0 <= k < links.len() && links[k] == x;
                assert(links.drop_last()[k] == x);
            }
            if x == links.last() {
                assert(links[links.len() - 1] == x);
            }
        }
    }
}


/// Outcomes of reading item pages, as values (`None` for a page that could not
/// be read).
pub open spec fn outcome_views(results: Seq<Option<ExtractLinkResult>>) -> Seq<Option<ExtractView>> {
    results.map_values(|r: Option<ExtractLinkResult>|
        match r {
            Some(x) => Some(x@),
            None => None,
        })
}

/// The downloads found among the outcomes, in order.
pub open spec fn spec_found(outcomes: Seq<Option<ExtractView>>) -> Seq<DownloadView>
    decreases outcomes.len(),
{
    if outcomes.len() == 0 {
        Seq::empty()
    } else {
        let before = spec_found(outcomes.drop_last());
        match outcomes.last() {
            Some(ExtractView::Found(d)) => before.push(d),
            _ => before,
        }
    }
}

/// The pages among the outcomes that held no usable link, in order.
pub open spec fn spec_missed(outcomes: Seq<Option<ExtractView>>) -> Seq<Seq<char>>
    decreases outcomes.len(),
{
    if outcomes.len() == 0 {
        Seq::empty()
    } else {
        let before = spec_missed(outcomes.drop_last());
        match outcomes.last() {
            Some(ExtractView::Missed(p)) => before.push(p),
            _ => before,
        }
    }
}

/// The number of pages among the outcomes that could be read.
pub open spec fn spec_read_count(outcomes: Seq<Option<ExtractView>>) -> nat
    decreases outcomes.len(),
{
    if outcomes.len() == 0 {
        0
    } else {
        spec_read_count(outcomes.drop_last()) + if outcomes.last() is Some {
            1nat
        } else {
            0nat
        }
    }
}

/// The views of a sequence of downloads.
pub open spec fn download_views(s: Seq<Download>) -> Seq<DownloadView> {
    s.map_values(|d: Download| d@)
}

/// Sorts the outcomes of reading item pages, in the order they came: the
/// downloads found, and the pages that held no usable link. Pages that could
/// not be read are dropped.
pub fn collect_download_links(results: Vec<Option<ExtractLinkResult>>) -> (res: (
    Vec<Download>,
    Vec<String>,
))
    ensures
        download_views(res.0@) == spec_found(outcome_views(results@)),
        string_views(res.1@) == spec_missed(outcome_views(results@)),
{
    let ghost all = outcome_views(results@);
    let mut downloads: Vec<Download> = Vec::new();
    let mut misses: Vec<String> = Vec::new();
    let mut rest = results;
    let mut taken: usize = 0;
    let ghost n = all.len();
    assert(n == rest.len());
    assert(all.take(0) =~= Seq::<Option<ExtractView>>::empty());
    assert(download_views(downloads@) =~= Seq::<DownloadView>::empty());
    assert(string_views(misses@) =~= Seq::<Seq<char>>::empty());
    while rest.len() > 0
        invariant
            taken + rest.len() == n,
            n == all.len(),
            n <= usize::MAX,
            outcome_views(rest@) == all.skip(taken as int),
            download_views(downloads@) == spec_found(all.take(taken as int)),
            string_views(misses@) == spec_missed(all.take(taken as int)),
        decreases rest.len(),
    {
        let ghost before_rest = rest@;
        let r = rest.remove(0);
        assert(all.skip(taken as int)[0] == outcome_views(before_rest)[0]);
        assert(all.take(taken + 1).drop_last() =~= all.take(taken as int));
        assert(all.take(taken + 1).last() == all[taken as int]);
        assert(all[taken as int] == all.skip(taken as int)[0]);
        assert forall|k: int| 0 <= k < rest@.len() implies outcome_views(rest@)[k] == all.skip(
            taken + 1,
        )[k] by {
            assert(rest@[k] == before_rest[k + 1]);
            assert(outcome_views(before_rest)[k + 1] == all.skip(taken as int)[k + 1]);
        }
        assert(outcome_views(rest@) =~= all.skip(taken + 1));
        match r {
            Some(ExtractLinkResult::Found(d)) => {
                let ghost prev = downloads@;
                downloads.push(d);
                assert(download_views(downloads@) =~= download_views(prev).push(d@));
            },
            Some(ExtractLinkResult::Missed(p)) => {
                let ghost prev = misses@;
                misses.push(p);
                assert(string_views(misses@) =~= string_views(prev).push(p@));
            },
            None => {},
        }
        taken = taken + 1;
    }
    assert(all.take(taken as int) =~= all);
    (downloads, misses)
}

proof fn lemma_sorted_counts(outcomes: Seq<Option<ExtractView>>, d: DownloadView, p: Seq<char>)
    ensures
        spec_found(outcomes).to_multiset().count(d) == outcomes.to_multiset().count(
            Some(ExtractView::Found(d)),
        ),
        spec_missed(outcomes).to_multiset().count(p) == outcomes.to_multiset().count(
            Some(ExtractView::Missed(p)),
        ),
    decreases outcomes.len(),
{
    broadcast use vstd::seq_lib::group_to_multiset_ensures;

    if outcomes.len() == 0 {
        assert(spec_found(outcomes).len() == 0);
        assert(spec_missed(outcomes).len() == 0);
        assert(spec_found(outcomes).to_multiset().len() == 0);
        assert(spec_missed(outcomes).to_multiset().len() == 0);
        assert(outcomes.to_multiset().len() == 0);
    } else {
        let before = outcomes.drop_last();
        lemma_sorted_counts(before, d, p);
        assert(outcomes =~= before.push(outcomes.last()));
    }
}

proof fn lemma_present_links_are_the_addresses(elements: Seq<(Seq<char>, Option<Seq<char>>)>)
    ensures
        forall|x: Seq<char>|
            spec_present_links(elements).contains(x) <==> exists|i: int|
                0 <= i < elements.len() && elements[i].1 == Some(x),
    decreases elements.len(),
{
    if elements.len() > 0 {
        let p = elements.drop_last();
        lemma_present_links_are_the_addresses(p);
        let before = spec_present_links(p);
        assert forall|x: Seq<char>|
            spec_present_links(elements).contains(x) <==> exists|i: int|
                0 <= i < elements.len() && elements[i].1 == Some(x) by {
            if spec_present_links(elements).contains(x) {
                let k = choose|k: int|
                    0 <= k < spec_present_links(elements).len() && spec_present_links(elements)[k]
                        == x;
                if k < before.len() {
                    assert(before.contains(x));
                    let i = choose|i: int| 0 <= i < p.len() && p[i].1 == Some(x);
                    assert(elements[i] == p[i]);
                } else {
                    assert(elements[elements.len() - 1].1 == Some(x));
                }
            }
            if exists|i: int| 0 <= i < elements.len() && elements[i].1 == Some(x) {
                let i = choose|i: int| 0 <= i < elements.len() && elements[i].1 == Some(x);
                if i < elements.len() - 1 {
                    assert(p[i] == elements[i]);
                    assert(before.contains(x));
                    let k = choose|k: int| 0 <= k < before.len() && before[k] == x;
                    match elements.last().1 {
                        Some(l) => {
                            assert(before.push(l)[k] == x);
                        },
                        None => {},
                    }
                } else {
                    let l = elements.last().1->0;
                    assert(spec_present_links(elements) == before.push(l));
                    assert(before.push(l)[before.len() as int] == x);
                }
            }
        }
    }
}

/// A catalogue listing holds every address of every selected element, from
/// the first to the last, and nothing else, each once.
pub proof fn lemma_listing_is_every_address(elements: Seq<(Seq<char>, Option<Seq<char>>)>)
    ensures
        forall|i: int|
            0 <= i < elements.len() && (#[trigger] elements[i]).1 is Some ==> spec_dedup(
                spec_present_links(elements),
            ).contains(elements[i].1->0),
        forall|x: Seq<char>|
            spec_dedup(spec_present_links(elements)).contains(x) ==> exists|i: int|
                0 <= i < elements.len() && elements[i].1 == Some(x),
        spec_dedup(spec_present_links(elements)).no_duplicates(),
{
    lemma_present_links_are_the_addresses(elements);
    lemma_dedup_is_set(spec_present_links(elements));
    assert forall|x: Seq<char>|
        spec_dedup(spec_present_links(elements)).contains(x) implies exists|i: int|
            0 <= i < elements.len() && elements[i].1 == Some(x) by {
        assert(spec_present_links(elements).contains(x));
    }
    assert forall|i: int|
        0 <= i < elements.len() && (#[trigger] elements[i]).1 is Some implies spec_dedup(
            spec_present_links(elements),
        ).contains(elements[i].1->0) by {
        assert(elements[i].1 == Some(elements[i].1->0));
        assert(spec_present_links(elements).contains(elements[i].1->0));
    }
}

/// A download found on an item page points at the address of one of the
/// page's `breakdance-link` elements exactly as the page gives it, an element
/// whose text holds the button once both are in lower case; its file is named
/// after the page's title. A page without such a link is missed as itself.
pub proof fn lemma_extract_link_is_verbatim(page: Seq<char>, document: Seq<char>, button: Seq<char>)
    ensures
        spec_extract(page, document, button) matches Some(ExtractView::Found(d)) ==> {
            &&& css_select(document, ".breakdance-link"@, "href"@) is Some
            &&& css_select(document, "title"@, "href"@) is Some
            &&& d.filename == spec_filename(
                spec_page_title(css_select(document, "title"@, "href"@)->0),
            )
            &&& exists|i: int|
                0 <= i < css_select(document, ".breakdance-link"@, "href"@)->0.len() && css_select(
                    document,
                    ".breakdance-link"@,
                    "href"@,
                )->0[i].1 == Some(d.url) && spec_contains(
                    lowercase(css_select(document, ".breakdance-link"@, "href"@)->0[i].0),
                    lowercase(button),
                )
        },
        spec_extract(page, document, button) matches Some(ExtractView::Missed(p)) ==> p == page,
{
    match (css_select(document, "title"@, "href"@), css_select(document, ".breakdance-link"@, "href"@)) {
        (Some(titles), Some(links)) => {
            let fname = spec_filename(spec_page_title(titles));
            let lowered = lowered_candidates(links);
            lemma_found_link_is_usable(page, fname, lowered, lowercase(button));
            if let ExtractView::Found(d) = spec_select(page, fname, lowered, lowercase(button)) {
                let i = choose|i: int|
                    0 <= i < lowered.len() && spec_contains(lowered[i].0, lowercase(button))
                        && lowered[i].1 == Some(d.url);
                assert(lowered[i] == (lowercase(links[i].0), links[i].1));
            }
        },
        _ => {},
    }
}

/// Sorting outcomes does not depend on the order they arrive in: outcomes that
/// are the same up to order give the same downloads and the same missed pages,
/// each as often, up to order.
pub proof fn lemma_sorting_ignores_order(
    first: Seq<Option<ExtractView>>,
    second: Seq<Option<ExtractView>>,
)
    requires
        first.to_multiset() == second.to_multiset(),
    ensures
        spec_found(first).to_multiset() == spec_found(second).to_multiset(),
        spec_missed(first).to_multiset() == spec_missed(second).to_multiset(),
{
    let p0 = Seq::<char>::empty();
    let d0 = DownloadView { kind: LinkKind::Zip, url: p0, filename: p0 };
    assert forall|d: DownloadView| #[trigger]
        spec_found(first).to_multiset().count(d) == spec_found(second).to_multiset().count(d) by {
        lemma_sorted_counts(first, d, p0);
        lemma_sorted_counts(second, d, p0);
    }
    assert forall|p: Seq<char>| #[trigger]
        spec_missed(first).to_multiset().count(p) == spec_missed(second).to_multiset().count(p) by {
        lemma_sorted_counts(first, d0, p);
        lemma_sorted_counts(second, d0, p);
    }
    assert(spec_found(first).to_multiset() =~= spec_found(second).to_multiset());
    assert(spec_missed(first).to_multiset() =~= spec_missed(second).to_multiset());
}

/// Every page that could be read counts once: as a download found or as a page
/// missed.
pub proof fn lemma_sorted_outcomes_add_up(outcomes: Seq<Option<ExtractView>>)
    ensures
        spec_found(outcomes).len() + spec_missed(outcomes).len() == spec_read_count(outcomes),
    decreases outcomes.len(),
{
    if outcomes.len() > 0 {
        lemma_sorted_outcomes_add_up(outcomes.drop_last());
    }
}


/// One file to fetch: its address, the path it is saved at, and its name.
#[derive(Clone, Debug, PartialEq, Eq)]
pub struct FileRequest {
    pub url: String,
    pub path: String,
    pub filename: String,
}

/// A file to fetch as values: address, path and name.
pub open spec fn request_view(r: FileRequest) -> (Seq<char>, Seq<char>, Seq<char>) {
    (r.url@, r.path@, r.filename@)
}

/// A sequence of files to fetch as values.
pub open spec fn request_views(s: Seq<FileRequest>) -> Seq<(Seq<char>, Seq<char>, Seq<char>)> {
    s.map_values(|r: FileRequest| request_view(r))
}

/// The files to fetch for `downloads` into `dir`, in order: one for each
/// download whose name is a local name (see [`spec_is_local_name`]), saved
/// under that name inside `dir`; a download whose name would lead elsewhere is
/// left out.
pub open spec fn spec_requests(dir: Seq<char>, downloads: Seq<DownloadView>) -> Seq<
    (Seq<char>, Seq<char>, Seq<char>),
>
    decreases downloads.len(),
{
    if downloads.len() == 0 {
        Seq::empty()
    } else {
        let before = spec_requests(dir, downloads.drop_last());
        let d = downloads.last();
        if spec_is_local_name(d.filename) {
            before.push((d.url, spec_join(dir, d.filename), d.filename))
        } else {
            before
        }
    }
}

/// The files to fetch for `downloads` into the directory `dir` (see
/// [`spec_requests`]).
pub fn file_requests(downloads: &Vec<Download>, dir: &str) -> (res: Vec<FileRequest>)
    ensures
        request_views(res@) == spec_requests(dir@, download_views(downloads@)),
{
    let ghost all = download_views(downloads@);
    let mut res: Vec<FileRequest> = Vec::new();
    let mut i: usize = 0;
    assert(all.take(0) =~= Seq::<DownloadView>::empty());
    assert(request_views(res@) =~= Seq::<(Seq<char>, Seq<char>, Seq<char>)>::empty());
    while i < downloads.len()
        invariant
            i <= downloads.len(),
            all == download_views(downloads@),
            request_views(res@) == spec_requests(dir@, all.take(i as int)),
        decreases downloads.len() - i,
    {
        let d = &downloads[i];
        assert(all.take(i + 1).drop_last() =~= all.take(i as int));
        assert(all.take(i + 1).last() == d@);
        if is_local_name(d.filename.as_str()) {
            let url = d.url().clone();
            let path = join_path(dir, d.filename.as_str());
            let filename = d.filename.clone();
            let ghost prev = res@;
            res.push(FileRequest { url, path, filename });
            assert(request_views(res@) =~= request_views(prev).push(
                (d@.url, spec_join(dir@, d@.filename), d@.filename),
            ));
        }
        i = i + 1;
    }
    assert(all.take(i as int) =~= all);
    res
}

/// Every file a run fetches lands directly inside its directory: the path is
/// the directory, at most a `/`, and then the file's name, which holds no `/`
/// and is not `..`. When every download has a local name, none is left
/// out.
pub proof fn lemma_requests_stay_inside(dir: Seq<char>, downloads: Seq<DownloadView>)
    ensures
        forall|i: int|
            0 <= i < spec_requests(dir, downloads).len() ==> {
                let r = #[trigger] spec_requests(dir, downloads)[i];
                &&& spec_is_local_name(r.2)
                &&& r.1 == spec_join(dir, r.2)
                &&& r.1.subrange(0, dir.len() as int) == dir
                &&& r.1.subrange(r.1.len() - r.2.len(), r.1.len() as int) == r.2
            },
        spec_requests(dir, downloads).len() <= downloads.len(),
        (forall|i: int| 0 <= i < downloads.len() ==> spec_is_local_name(#[trigger] downloads[i].filename))
            ==> spec_requests(dir, downloads).len() == downloads.len(),
    decreases downloads.len(),
{
    if downloads.len() > 0 {
        let p = downloads.drop_last();
        lemma_requests_stay_inside(dir, p);
        let d = downloads.last();
        lemma_join_stays_inside(dir, d.filename);
        if forall|i: int| 0 <= i < downloads.len() ==> spec_is_local_name(#[trigger] downloads[i].filename) {
            assert forall|i: int| 0 <= i < p.len() implies spec_is_local_name(#[trigger] p[i].filename) by {
                assert(p[i] == downloads[i]);
            }
            assert(spec_is_local_name(downloads[downloads.len() - 1].filename));
        }
    }
}

/// What to do about one file.
#[derive(Clone, Debug, PartialEq, Eq)]
pub enum FileStep {
    /// The file is already there: leave it and print the notice.
    Skip { notice: String },
    /// Fetch `url` and save the bytes at `path`.
    Fetch { url: String, path: String },
}

/// What to do about the file of `request`, given whether a file already stands
/// at its path: skip it, with the notice `skip <name>`, or fetch it.
pub fn plan_file(request: &FileRequest, already_present: bool) -> (res: FileStep)
    ensures
        already_present ==> (res matches FileStep::Skip { notice } && notice@ == "skip "@
            + request.filename@),
        !already_present ==> (res matches FileStep::Fetch { url, path } && url@ == request.url@
            && path@ == request.path@),
{
    if already_present {
        FileStep::Skip { notice: concatenate("skip ", request.filename.as_str()) }
    } else {
        FileStep::Fetch { url: request.url.clone(), path: request.path.clone() }
    }
}

/// The number of downloads allowed to run at once under `limit`; a limit of 0
/// still lets one run, so that a run always makes progress.
pub open spec fn spec_capacity(limit: nat) -> nat {
    if limit == 0 {
        1
    } else {
        limit
    }
}

/// How many of `waiting` downloads to start now, with `running` under way and at
/// most `limit` allowed at once: as many as fit, and no more than wait.
pub open spec fn spec_to_start(waiting: nat, running: nat, limit: nat) -> nat {
    if running >= spec_capacity(limit) {
        0
    } else if waiting < spec_capacity(limit) - running {
        waiting
    } else {
        (spec_capacity(limit) - running) as nat
    }
}

/// How many of `waiting` downloads to start now (see [`spec_to_start`]).
pub fn downloads_to_start(waiting: usize, running: usize, limit: usize) -> (res: usize)
    ensures
        res == spec_to_start(waiting as nat, running as nat, limit as nat),
{
    let capacity: usize = if limit == 0 {
        1
    } else {
        limit
    };
    if running >= capacity {
        0
    } else if waiting < capacity - running {
        waiting
    } else {
        capacity - running
    }
}

/// Starting downloads never takes more than wait, never lifts the number
/// running above the limit, and starts at least one whenever some wait and
/// none runs.
pub proof fn lemma_admission_bounds(waiting: nat, running: nat, limit: nat)
    requires
        running <= spec_capacity(limit),
    ensures
        spec_to_start(waiting, running, limit) <= waiting,
        running + spec_to_start(waiting, running, limit) <= spec_capacity(limit),
        running == 0 && waiting > 0 ==> spec_to_start(waiting, running, limit) > 0,
        limit > 0 ==> running + spec_to_start(waiting, running, limit) <= limit,
{
}

/// One catalogue to download in a run.
pub struct DownloadJob {
    pub target: DownloadTarget,
    pub listing_url: String,
    pub button_text: String,
    pub dir: String,
}

/// The work of a run: its jobs, and whether a failing job makes the run fail.
pub struct RunPlan {
    pub jobs: Vec<DownloadJob>,
    pub report_failures: bool,
}

/// The job for `target` in a run with the settings `args`: the target's
/// catalogue page, the button labelled with the size chosen for the target,
/// and the target's directory.
pub open spec fn job_matches(job: DownloadJob, target: DownloadTarget, args: DownloadArgsView) -> bool {
    &&& job.target == target
    &&& job.listing_url@ == target.spec_listing_url()
    &&& job.button_text@ == spec_button_text(args.mode, target)
    &&& job.dir@ == spec_target_dir(args.dir, target)
}

/// The work of a run: one job per target of the mode, textures first, each
/// with its catalogue page, the button of the chosen size, and its directory. When both catalogues
/// are downloaded they run side by side and their failures are dropped; a run
/// of a single catalogue fails when its job fails.
pub fn plan_run(args: &DownloadArgs) -> (res: RunPlan)
    ensures
        res.jobs.len() == mode_targets(args@.mode).len(),
        forall|i: int|
            0 <= i < res.jobs.len() ==> job_matches(
                #[trigger] res.jobs@[i],
                mode_targets(args@.mode)[i],
                args@,
            ),
        res.report_failures == !(args@.mode is All),
{
    let targets = args.targets();
    let mut jobs: Vec<DownloadJob> = Vec::new();
    let mut i: usize = 0;
    while i < targets.len()
        invariant
            i <= targets.len(),
            targets@ == mode_targets(args@.mode),
            jobs.len() == i,
            forall|k: int| 0 <= k < i ==> job_matches(#[trigger] jobs@[k], targets@[k], args@),
        decreases targets.len() - i,
    {
        let t = targets[i];
        jobs.push(
            DownloadJob {
                target: t,
                listing_url: t.listing_url(),
                button_text: args.button_text(t),
                dir: args.target_dir(t),
            },
        );
        i = i + 1;
    }
    let report_failures = match args.mode() {
        DownloadMode::All { .. } => false,
        _ => true,
    };
    RunPlan { jobs, report_failures }
}


/// A file name keeps the whole of the title up to its first `|` (or all of it
/// when there is none), character for character, except that spaces and `/`
/// become `_`; then comes `.zip`. Nothing of that part is cut or lost.
pub proof fn lemma_filename_keeps_title_part(title: Seq<char>)
    ensures
        spec_filename(title).len() >= 4,
        spec_filename(title).len() - 4 <= title.len(),
        spec_filename(title).len() - 4 == title.len() || title[spec_filename(title).len() - 4]
            == '|',
        forall|k: int| #![trigger title[k]] 0 <= k < spec_filename(title).len() - 4 ==> title[k] != '|',
        forall|k: int|
            #![trigger spec_filename(title)[k]]
            0 <= k < spec_filename(title).len() - 4 ==> spec_filename(title)[k] == (if title[k] == ' '
                || title[k] == '/' {
                '_'
            } else {
                title[k]
            }),
        spec_filename(title).subrange(
            spec_filename(title).len() - 4,
            spec_filename(title).len() as int,
        ) == ".zip"@,
{
    reveal_strlit(".zip");
    let part = spec_before_first(title, '|');
    let spaced = spec_replace_char(part, ' ', '_');
    let safe = spec_replace_char(spaced, '/', '_');
    let f = spec_filename(title);
    lemma_before_first_is_clean_prefix(title, '|');
    lemma_before_first_stops_at_sep(title, '|');
    assert(f.len() == part.len() + 4);
    assert forall|k: int| 0 <= k < f.len() - 4 implies title[k] != '|' && f[k] == (if title[k]
        == ' ' || title[k] == '/' {
        '_'
    } else {
        title[k]
    }) by {
        assert(part[k] == title.take(part.len() as int)[k]);
        assert(part[k] == title[k]);
        assert(!part.contains('|'));
        if title[k] == '|' {
            assert(part[k] == '|');
            assert(part.contains('|'));
        }
        assert(spaced[k] == (if part[k] == ' ' { '_' } else { part[k] }));
        assert(safe[k] == (if spaced[k] == '/' { '_' } else { spaced[k] }));
        assert(f[k] == safe[k]);
    }
    assert(f.subrange(f.len() - 4, f.len() as int) =~= ".zip"@);
}

/// Every file name ends with `.zip`, holds no space, no `|` and no `/`, and is
/// a local name: whatever a page's title, its file stays in the download
/// directory.
pub proof fn lemma_filename_shape(title: Seq<char>)
    ensures
        spec_ends_with(spec_filename(title), ".zip"@),
        !spec_filename(title).contains(' '),
        !spec_filename(title).contains('|'),
        !spec_filename(title).contains('/'),
        spec_is_local_name(spec_filename(title)),
{
    let part = spec_before_first(title, '|');
    let spaced = spec_replace_char(part, ' ', '_');
    let safe = spec_replace_char(spaced, '/', '_');
    let f = spec_filename(title);
    reveal_strlit(".zip");
    lemma_before_first_is_clean_prefix(title, '|');
    lemma_replace_removes(part, ' ', '_');
    lemma_replace_removes(spaced, '/', '_');
    assert(f.subrange(f.len() - 4, f.len() as int) =~= ".zip"@);
    assert(f.len() >= 4);
    if f.contains(' ') {
        let k = choose|k: int| 0 <= k < f.len() && f[k] == ' ';
        if k < safe.len() {
            assert(safe[k] == (if spaced[k] == '/' { '_' } else { spaced[k] }));
            assert(spaced[k] == ' ');
        }
    }
    if f.contains('|') {
        let k = choose|k: int| 0 <= k < f.len() && f[k] == '|';
        if k < safe.len() {
            assert(safe[k] == (if spaced[k] == '/' { '_' } else { spaced[k] }));
            assert(spaced[k] == (if part[k] == ' ' { '_' } else { part[k] }));
            assert(part[k] == '|');
        }
    }
    if f.contains('/') {
        let k = choose|k: int| 0 <= k < f.len() && f[k] == '/';
        if k < safe.len() {
            assert(safe[k] == '/');
        }
    }
}

/// A download found on a page is named as given and comes from the address of
/// a link element whose label holds the button: an archive when the address
/// ends with `.zip`, otherwise a Google Drive file whose address mentions
/// `drive.google.com`.
pub proof fn lemma_found_link_is_usable(
    page: Seq<char>,
    filename: Seq<char>,
    candidates: Seq<(Seq<char>, Option<Seq<char>>)>,
    button: Seq<char>,
)
    ensures
        spec_select(page, filename, candidates, button) matches ExtractView::Found(d) ==> {
            &&& d.filename == filename
            &&& d.kind == LinkKind::Zip ==> spec_ends_with(d.url, ".zip"@)
            &&& d.kind == LinkKind::GDrive ==> !spec_ends_with(d.url, ".zip"@) && spec_contains(
                d.url,
                "drive.google.com"@,
            )
            &&& exists|i: int|
                0 <= i < candidates.len() && spec_contains(candidates[i].0, button)
                    && candidates[i].1 == Some(d.url)
        },
        spec_select(page, filename, candidates, button) matches ExtractView::Missed(p) ==> p == page,
    decreases candidates.len(),
{
    if candidates.len() > 0 {
        if spec_contains(candidates[0].0, button) && candidates[0].1 is Some {
        } else {
            let rest = candidates.drop_first();
            lemma_found_link_is_usable(page, filename, rest, button);
            if let ExtractView::Found(d) = spec_select(page, filename, rest, button) {
                let i = choose|i: int|
                    0 <= i < rest.len() && spec_contains(rest[i].0, button) && rest[i].1 == Some(
                        d.url,
                    );
                assert(candidates[i + 1] == rest[i]);
            }
        }
    }
}

} // verus!
