use std::io::Write;
use tread::epub::{
    cached_from_line, chapter_cache_name, line_from_cached, merge_paragraphs, parent_dir, parse_container,
    parse_ncx, parse_opf, resolve_href, should_merge_paragraphs, CachedLine, EpubBook,
};
use tread::image::{ImageNode, LineContent, LinkNode, StyledSpan};
use tread::style::Style;

const CONTAINER: &str = r#"<?xml version="1.0"?><container version="1.0" xmlns="urn:oasis:names:tc:opendocument:xmlns:container"><rootfiles><rootfile full-path="OEBPS/content.opf" media-type="application/oebps-package+xml"/></rootfiles></container>"#;
const OPF: &str = r#"<?xml version="1.0"?><package version="2.0" xmlns="http://www.idpf.org/2007/opf"><metadata xmlns:dc="http://purl.org/dc/elements/1.1/"><dc:title>测试书籍</dc:title><dc:creator>测试作者</dc:creator><dc:language>zh</dc:language></metadata><manifest><item id="ch1" href="chapter1.xhtml" media-type="application/xhtml+xml"/><item id="ch2" href="chapter2.xhtml" media-type="application/xhtml+xml"/><item id="ncx" href="toc.ncx" media-type="application/x-dtbncx+xml"/><item id="img1" href="images/cover.png" media-type="image/png"/></manifest><spine toc="ncx"><itemref idref="ch1"/><itemref idref="ch2"/></spine></package>"#;
const CHAPTER1: &str = r#"<?xml version="1.0"?><html xmlns="http://www.w3.org/1999/xhtml"><body><h1>第一章：开始</h1><p>内容包含<strong>粗体</strong>。</p><img src="images/cover.png" alt="封面"/></body></html>"#;
const CHAPTER2: &str = r#"<?xml version="1.0"?><html xmlns="http://www.w3.org/1999/xhtml"><body><h1>第二章：继续</h1><pre><code>fn main() {}</code></pre></body></html>"#;
const NCX: &str = r#"<?xml version="1.0"?><ncx xmlns="http://www.daisy.org/z3986/2005/ncx/"><navMap><navPoint id="ch1" playOrder="1"><navLabel><text>第一章：开始</text></navLabel><content src="chapter1.xhtml"/></navPoint><navPoint id="ch2" playOrder="2"><navLabel><text>第二章：继续</text></navLabel><content src="chapter2.xhtml"/></navPoint></navMap></ncx>"#;

fn archive(files: &[(&str, &[u8])]) -> Vec<u8> {
    let mut z = zip::ZipWriter::new(std::io::Cursor::new(Vec::new()));
    let o = zip::write::SimpleFileOptions::default();
    for (name, data) in files {
        z.start_file(*name, o).unwrap();
        z.write_all(data).unwrap();
    }
    z.finish().unwrap().into_inner()
}

fn test_epub() -> Vec<u8> {
    archive(&[
        ("META-INF/container.xml", CONTAINER.as_bytes()),
        ("OEBPS/content.opf", OPF.as_bytes()),
        ("OEBPS/chapter1.xhtml", CHAPTER1.as_bytes()),
        ("OEBPS/chapter2.xhtml", CHAPTER2.as_bytes()),
        ("OEBPS/toc.ncx", NCX.as_bytes()),
        ("OEBPS/images/cover.png", b"\x89PNG\r\n\x1a\nfake"),
    ])
}

const EPUB_PATH: &str = "/tmp/tread_epub_0.epub";

fn open_test_book() -> (EpubBook, Vec<u8>) {
    let bytes = test_epub();
    let book = EpubBook::open_archive(EPUB_PATH, &bytes).unwrap();
    (book, bytes)
}

#[test]
fn parse_container_finds_opf() {
    let (book, _) = open_test_book();
    assert_eq!(book.opf_dir, "OEBPS");
    assert_eq!(parse_container(CONTAINER).unwrap(), "OEBPS/content.opf");
}

#[test]
fn parse_metadata() {
    let (book, _) = open_test_book();
    assert_eq!(book.metadata.title, "测试书籍");
    assert_eq!(book.metadata.author, "测试作者");
    assert_eq!(book.metadata.language, "zh");
}

#[test]
fn parse_spine() {
    let (book, _) = open_test_book();
    assert_eq!(book.spine.len(), 2);
    assert_eq!(book.spine[0].idref, "ch1");
    assert_eq!(book.spine[0].href, "chapter1.xhtml");
}

#[test]
fn parse_ncx_toc() {
    let (book, _) = open_test_book();
    assert_eq!(book.toc.len(), 2, "TOC should have 2 entries");
    assert_eq!(book.toc[0].title, "第一章：开始");
    assert_eq!(book.toc[1].title, "第二章：继续");
    assert_eq!(book.toc[1].href, "chapter2.xhtml");
    assert_eq!(book.toc[1].level, 1);
}

#[test]
fn read_chapter_content() {
    let (book, bytes) = open_test_book();
    let ch1 = book.read_chapter(&bytes, 0).unwrap();
    assert!(ch1.contains("第一章：开始"));
}

#[test]
fn read_chapter_out_of_bounds() {
    let (book, bytes) = open_test_book();
    assert!(book.read_chapter(&bytes, 99).is_err());
    assert_eq!(book.read_chapter(&bytes, 99).unwrap_err(), "章节索引超出范围: 99 >= 2");
}

#[test]
fn chapter_count() {
    let (book, _) = open_test_book();
    assert_eq!(book.chapter_count(), 2);
}

#[test]
fn book_hash_is_deterministic() {
    let (book, _) = open_test_book();
    assert_eq!(book.book_hash().len(), 16);
    assert_eq!(book.book_hash(), book.book_hash());
}

#[test]
fn extract_image_from_epub() {
    let (book, bytes) = open_test_book();
    let (path, data) = book.image_data(&bytes, "images/cover.png").unwrap();
    assert_eq!(path, "OEBPS/images/cover.png");
    assert_eq!(data, b"\x89PNG\r\n\x1a\nfake".to_vec());
    assert_eq!(book.image_data(&bytes, "images/missing.png").unwrap_err(), "ZIP 中未找到文件: OEBPS/images/missing.png");
}

#[test]
fn invalid_epub_returns_error() {
    let err = EpubBook::open_archive("/tmp/tread_invalid.epub", b"not a zip").unwrap_err();
    assert_eq!(err, "无法解析 EPUB ZIP 结构");
}

#[test]
fn epub_without_container_or_rootfile_is_refused() {
    let bytes = archive(&[("mimetype", b"application/epub+zip")]);
    assert_eq!(
        EpubBook::open_archive("/tmp/x.epub", &bytes).unwrap_err(),
        "ZIP 中未找到文件: META-INF/container.xml"
    );
    let bytes = archive(&[("META-INF/container.xml", b"<container><rootfiles/></container>")]);
    assert_eq!(EpubBook::open_archive("/tmp/x.epub", &bytes).unwrap_err(), "container.xml 中未找到 rootfile");
    let bytes = archive(&[("META-INF/container.xml", CONTAINER.as_bytes()), ("OEBPS/content.opf", b"\xff\xfe")]);
    assert_eq!(
        EpubBook::open_archive("/tmp/x.epub", &bytes).unwrap_err(),
        "文件不是有效 UTF-8: OEBPS/content.opf"
    );
}

#[test]
fn missing_toc_reads_as_empty() {
    let bytes = archive(&[("META-INF/container.xml", CONTAINER.as_bytes()), ("OEBPS/content.opf", OPF.as_bytes())]);
    let book = EpubBook::open_archive("/tmp/x.epub", &bytes).unwrap();
    assert!(book.toc.is_empty());
    assert_eq!(book.spine.len(), 2);
}

#[test]
fn opf_and_ncx_parse_from_text() {
    let opf = parse_opf(OPF);
    assert_eq!(opf.metadata.title, "测试书籍");
    assert_eq!(opf.manifest.len(), 4);
    assert_eq!(opf.spine.len(), 2);
    assert_eq!(opf.ncx, Some("ncx".to_string()));
    let toc = parse_ncx(NCX);
    assert_eq!(toc.len(), 2);
    assert_eq!(toc[0].href, "chapter1.xhtml");
}

#[test]
fn resolve_href_works() {
    assert_eq!(resolve_href("OEBPS", "ch.xhtml"), "OEBPS/ch.xhtml");
    assert_eq!(resolve_href("", "ch.xhtml"), "ch.xhtml");
    assert_eq!(resolve_href("OEBPS", "/abs/path"), "abs/path");
}

#[test]
fn parent_dir_works() {
    assert_eq!(parent_dir("OEBPS/content.opf"), "OEBPS");
    assert_eq!(parent_dir("content.opf"), "");
}

#[test]
fn chapter_cache_names() {
    assert_eq!(chapter_cache_name(0), "chapter_0.json");
    assert_eq!(chapter_cache_name(12), "chapter_12.json");
}

fn styled(text: &str) -> LineContent {
    LineContent::Styled(vec![StyledSpan::new(text.to_string(), Style::plain())])
}

fn empty() -> LineContent {
    LineContent::Styled(Vec::new())
}

fn text_of(lines: &[LineContent]) -> Vec<String> {
    lines
        .iter()
        .filter_map(|lc| match lc {
            LineContent::Styled(spans) => {
                let t: String = spans.iter().map(|s| s.text.as_str()).collect();
                if t.is_empty() {
                    None
                } else {
                    Some(t)
                }
            }
            _ => None,
        })
        .collect()
}

fn count_empties(lines: &[LineContent]) -> usize {
    lines.iter().filter(|lc| matches!(lc, LineContent::Styled(spans) if spans.is_empty())).count()
}

#[test]
fn consecutive_empties_collapsed() {
    let lines = vec![styled("第一段"), empty(), empty(), empty(), empty(), styled("第二段")];
    let merged = merge_paragraphs(lines);
    assert_eq!(count_empties(&merged), 1, "should have exactly 1 empty line");
    assert_eq!(text_of(&merged), vec!["第一段", "第二段"]);
}

#[test]
fn comma_endings_merge() {
    let lines = vec![styled("说到境界，大家不免会问一个问题"), empty(), styled("什么是境界")];
    let merged = merge_paragraphs(lines);
    assert!(text_of(&merged).len() <= 2);
}

#[test]
fn sentence_ending_stays_separate() {
    let lines = vec![styled("这是第一句话。"), empty(), styled("这是第二句话。")];
    let merged = merge_paragraphs(lines);
    assert_eq!(text_of(&merged).len(), 2, "sentence-ending paragraphs should stay separate");
}

#[test]
fn new_chapter_stays_separate() {
    let lines = vec![styled("这是上一章的最后一句"), empty(), styled("第三章 新的开始")];
    let merged = merge_paragraphs(lines);
    assert_eq!(text_of(&merged).len(), 2, "new chapter should stay separate");
}

#[test]
fn no_ending_punctuation_merges() {
    let lines = vec![styled("从何处下手"), empty(), styled("高境界也不难")];
    let merged = merge_paragraphs(lines);
    assert_eq!(text_of(&merged).len(), 1, "mid-sentence cut should merge");
    assert_eq!(text_of(&merged), vec!["从何处下手 高境界也不难"]);
}

#[test]
fn image_lines_preserved() {
    let lines = vec![
        styled("文字"),
        LineContent::Image(ImageNode {
            alt: "图".to_string(),
            url: "img.png".to_string(),
            local_path: None,
            id: 0,
            download_failed: false,
        }),
        styled("更多文字"),
    ];
    let merged = merge_paragraphs(lines);
    assert_eq!(merged.len(), 3);
}

#[test]
fn merge_decisions() {
    assert!(should_merge_paragraphs("一个问题，", "什么"));
    assert!(!should_merge_paragraphs("结束。", "开始"));
    assert!(!should_merge_paragraphs("no ending", "Capital start"));
    assert!(should_merge_paragraphs("no ending", "lower start"));
    assert!(!should_merge_paragraphs("继续，", "（注释）"));
    assert!(!should_merge_paragraphs("   ", "x"));
}

#[test]
fn leading_and_trailing_empties_dropped() {
    let lines = vec![empty(), styled("正文。"), empty(), empty()];
    let merged = merge_paragraphs(lines);
    assert_eq!(merged.len(), 1);
}

#[test]
fn cache_roundtrip() {
    let lines = vec![
        styled("测试内容"),
        empty(),
        LineContent::Image(ImageNode {
            alt: "alt".to_string(),
            url: "http://example.com/img.png".to_string(),
            local_path: Some("/cached/img.png".to_string()),
            id: 0,
            download_failed: false,
        }),
        LineContent::Link(LinkNode { text: "t".to_string(), url: "u".to_string(), is_external: true }),
    ];
    let cached: Vec<CachedLine> = lines.iter().map(cached_from_line).collect();
    let loaded: Vec<LineContent> = cached.iter().map(line_from_cached).collect();
    assert_eq!(loaded.len(), 4);
    assert_eq!(text_of(&loaded), vec!["测试内容"]);
    match &loaded[2] {
        LineContent::Image(node) => assert_eq!(node.local_path.as_deref(), Some("/cached/img.png")),
        _ => panic!("expected image"),
    }
    assert!(matches!(line_from_cached(&CachedLine::Empty), LineContent::Styled(spans) if spans.is_empty()));
}

#[test]
fn chapters_become_merged_lines_with_their_images() {
    let (book, bytes) = open_test_book();
    let text = book.read_chapter(&bytes, 0).unwrap();
    let sources = tread::xhtml::xhtml_image_sources(&text);
    assert_eq!(sources, vec!["images/cover.png".to_string()]);
    let lines = tread::epub::chapter_lines(&text, &vec![Some("/cache/cover.png".to_string())], &vec![]);
    assert!(text_of(&lines).iter().any(|t| t.contains("第一章：开始")));
    let image = lines
        .iter()
        .find_map(|l| match l {
            LineContent::Image(n) => Some(n),
            _ => None,
        })
        .unwrap();
    assert_eq!(image.alt, "封面");
    assert_eq!(image.local_path.as_deref(), Some("/cache/cover.png"));
}

#[test]
fn display_title_falls_back_to_the_file_name() {
    let (mut book, _) = open_test_book();
    assert_eq!(book.display_title("x.epub"), "测试书籍");
    book.metadata.title = String::new();
    assert_eq!(book.display_title("x.epub"), "x.epub");
}
