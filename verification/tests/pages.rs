use texture_downloader::download::{
    classify_link, collect_download_links, extract_download_data, filename_for_title,
    get_filename, listing_pages, page_title, select_download, unique_links, Download, DownloadInfo,
    ExtractLinkResult, LinkCandidate,
};
use texture_downloader::scrape::ElementData;

const PAGE: &str = "https://freestylized.com/texture/mossy-rock/";

fn item_page(title: &str, links: &str) -> String {
    format!(
        "<html><head><title>{}</title></head><body>{}</body></html>",
        title, links
    )
}

#[test]
fn zip_link_is_an_archive() {
    let r = classify_link("https://cdn.example/rock_1k.zip", PAGE, "Rock.zip");
    assert_eq!(
        r,
        ExtractLinkResult::Found(Download::zip(
            "https://cdn.example/rock_1k.zip".to_string(),
            "Rock.zip".to_string()
        ))
    );
}

#[test]
fn drive_link_is_a_drive_file() {
    let r = classify_link("https://drive.google.com/file/d/abc/view", PAGE, "Rock.zip");
    assert_eq!(
        r,
        ExtractLinkResult::Found(Download::gdrive(
            "https://drive.google.com/file/d/abc/view".to_string(),
            "Rock.zip".to_string()
        ))
    );
}

#[test]
fn other_link_misses_the_page() {
    let r = classify_link("https://example.com/rock.rar", PAGE, "Rock.zip");
    assert_eq!(r, ExtractLinkResult::Missed(PAGE.to_string()));
}

#[test]
fn zip_wins_over_drive() {
    let r = classify_link("https://drive.google.com/a.zip", PAGE, "f.zip");
    assert!(matches!(r, ExtractLinkResult::Found(Download { info: DownloadInfo::Zip(_), .. })));
}

#[test]
fn first_labelled_link_with_address_decides() {
    let candidates = vec![
        LinkCandidate { label: "download 2k".to_string(), href: Some("https://a/2k.zip".to_string()) },
        LinkCandidate { label: "download 1k".to_string(), href: None },
        LinkCandidate { label: "get 1k here".to_string(), href: Some("https://a/other".to_string()) },
        LinkCandidate { label: "1k".to_string(), href: Some("https://a/1k.zip".to_string()) },
    ];
    let r = select_download(PAGE, "f.zip", &candidates, "1k");
    assert_eq!(r, ExtractLinkResult::Missed(PAGE.to_string()));
    let r = select_download(PAGE, "f.zip", &candidates[3..].to_vec(), "1k");
    assert_eq!(r, ExtractLinkResult::Found(Download::zip("https://a/1k.zip".to_string(), "f.zip".to_string())));
}

#[test]
fn no_labelled_link_misses_the_page() {
    let candidates = vec![LinkCandidate { label: "download 4k".to_string(), href: Some("https://a/4k.zip".to_string()) }];
    assert_eq!(select_download(PAGE, "f.zip", &candidates, "1k"), ExtractLinkResult::Missed(PAGE.to_string()));
    assert_eq!(select_download(PAGE, "f.zip", &Vec::new(), "1k"), ExtractLinkResult::Missed(PAGE.to_string()));
}

#[test]
fn filename_from_title() {
    assert_eq!(filename_for_title("Mossy Rock | Free Stylized Textures"), "Mossy_Rock_.zip");
    assert_eq!(filename_for_title("Sand Dunes"), "Sand_Dunes.zip");
    assert_eq!(filename_for_title("|lead"), ".zip");
    assert_eq!(filename_for_title(""), ".zip");
    assert_eq!(filename_for_title("/x"), "_x.zip");
    assert_eq!(filename_for_title("../../etc/passwd | Site"), ".._.._etc_passwd_.zip");
}

#[test]
fn filename_of_a_page() {
    let doc = item_page("Mossy Rock | Free Stylized", "");
    assert_eq!(get_filename(&doc), Some("Mossy_Rock_.zip".to_string()));
    let doc = "<html><body><p>no title</p></body></html>";
    assert_eq!(get_filename(doc), Some("unknown_texture.zip".to_string()));
}

#[test]
fn title_of_selected_elements() {
    let t = |s: &str| ElementData { text: s.to_string(), attribute: None };
    assert_eq!(page_title(&vec![t("First"), t("Second")]), "First");
    assert_eq!(page_title(&Vec::new()), "unknown_texture");
}

#[test]
fn slash_in_title_stays_in_name() {
    let doc = item_page("/x", "");
    assert_eq!(get_filename(&doc), Some("_x.zip".to_string()));
}

#[test]
fn extract_finds_button_regardless_of_case() {
    let doc = item_page(
        "Lava Ground | Free",
        "<a class=\"breakdance-link\" href=\"https://x/lava_2k.zip\">Download 2K</a>\
         <a class=\"breakdance-link\" href=\"https://x/lava_1k.zip\">Download 1k</a>",
    );
    let r = extract_download_data(PAGE, &doc, "1K");
    assert_eq!(
        r,
        Some(ExtractLinkResult::Found(Download::zip(
            "https://x/lava_1k.zip".to_string(),
            "Lava_Ground_.zip".to_string()
        )))
    );
}

#[test]
fn extract_follows_drive_links_and_misses_others() {
    let doc = item_page(
        "Ice",
        "<a class=\"breakdance-link\" href=\"https://drive.google.com/uc?id=1\"><span>2K</span></a>",
    );
    assert_eq!(
        extract_download_data(PAGE, &doc, "2K"),
        Some(ExtractLinkResult::Found(Download::gdrive(
            "https://drive.google.com/uc?id=1".to_string(),
            "Ice.zip".to_string()
        )))
    );
    let doc = item_page("Ice", "<a class=\"breakdance-link\" href=\"https://x/ice.rar\">2K</a>");
    assert_eq!(extract_download_data(PAGE, &doc, "2K"), Some(ExtractLinkResult::Missed(PAGE.to_string())));
    let doc = item_page("Ice", "<a class=\"other\" href=\"https://x/ice.zip\">2K</a>");
    assert_eq!(extract_download_data(PAGE, &doc, "2K"), Some(ExtractLinkResult::Missed(PAGE.to_string())));
}

#[test]
fn extract_skips_button_without_address() {
    let doc = item_page(
        "Bark",
        "<div class=\"breakdance-link\">1K</div><a class=\"breakdance-link\" href=\"https://x/b.zip\">1K</a>",
    );
    assert_eq!(
        extract_download_data(PAGE, &doc, "1K"),
        Some(ExtractLinkResult::Found(Download::zip("https://x/b.zip".to_string(), "Bark.zip".to_string())))
    );
}

#[test]
fn catalogue_pages_are_listed_once_each() {
    let doc = "<html><body><div class=\"ee-posts-grid\">\
        <div class=\"ee-post\"><a class=\"ee-post-image-link\" href=\"https://s/a/\">a</a></div>\
        <div class=\"ee-post\"><a class=\"ee-post-image-link\" href=\"https://s/b/\">b</a></div>\
        <div class=\"ee-post\"><a class=\"ee-post-image-link\">no link</a></div>\
        <div class=\"ee-post\"><a class=\"ee-post-image-link\" href=\"https://s/a/\">a again</a></div>\
        </div><a class=\"ee-post-image-link\" href=\"https://s/outside/\">x</a></body></html>";
    assert_eq!(listing_pages(doc), Some(vec!["https://s/a/".to_string(), "https://s/b/".to_string()]));
    assert_eq!(listing_pages("<html></html>"), Some(Vec::new()));
}

#[test]
fn unique_links_keep_first_appearance() {
    let e = |h: Option<&str>| ElementData { text: String::new(), attribute: h.map(|s| s.to_string()) };
    let elements = vec![e(Some("b")), e(None), e(Some("a")), e(Some("b")), e(Some("c")), e(Some("a"))];
    assert_eq!(unique_links(&elements), vec!["b", "a", "c"]);
}

#[test]
fn outcomes_are_sorted_in_order() {
    let d1 = Download::zip("u1".to_string(), "f1.zip".to_string());
    let d2 = Download::gdrive("u2".to_string(), "f2.zip".to_string());
    let results = vec![
        Some(ExtractLinkResult::Missed("p1".to_string())),
        Some(ExtractLinkResult::Found(d1.clone())),
        None,
        Some(ExtractLinkResult::Found(d2.clone())),
        Some(ExtractLinkResult::Missed("p2".to_string())),
    ];
    let (downloads, misses) = collect_download_links(results);
    assert_eq!(downloads, vec![d1, d2]);
    assert_eq!(misses, vec!["p1".to_string(), "p2".to_string()]);
    assert_eq!(collect_download_links(Vec::new()), (Vec::new(), Vec::new()));
}

#[test]
fn download_url_of_either_kind() {
    assert_eq!(Download::zip("u".to_string(), "f".to_string()).url(), "u");
    assert_eq!(Download::gdrive("v".to_string(), "f".to_string()).url(), "v");
}
