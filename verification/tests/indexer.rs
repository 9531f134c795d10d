use std::io::Write;
use kompanion::kompanion_core::change_request::{FileFacts, Progress};
use kompanion::kompanion_core::indexer::{FileIndexer, IndexMetadata};
use kompanion::kompanion_extractor::extractor::{
    full_path_of, index_outcome, indexed_change, plan_scanner_event, uuid_from_buffer, EventPlan,
};
use kompanion::kompanion_extractor::indexer::cbz::{
    front_cover_index, natural_cmp, take_digits, CbzIndexer, ComicInfo, ComicPage, ComicPages,
};
use kompanion::kompanion_extractor::indexer::epub::{cover_extension, EpubIndexer, EpubMetadata};
use kompanion::kompanion_extractor::indexer::fb2::{
    author_name, cover_href, cover_image, image_extension, is_zip, parse_book, select_book_entry, Fb2Author,
    Fb2Binary, Fb2Book, Fb2Indexer, Fb2TitleInfo,
};
use kompanion::kompanion_extractor::indexer::{
    cover_path, find_indexer, init_registry, sdr_path, ArchiveEntry,
};
use kompanion::koreader_companion_sys::scanner::ScannerEventType;
use std::cmp::Ordering;

fn entry(name: &str) -> ArchiveEntry {
    ArchiveEntry { is_file: true, enclosed_name: Some(name.to_string()) }
}

fn no_info() -> ComicInfo {
    ComicInfo {
        title: None,
        series: None,
        number: None,
        writer: None,
        language_iso: None,
        publisher: None,
        pages: None,
    }
}

#[test]
fn test_cbz_indexer_can_handle_cbz_files() {
    let indexer = CbzIndexer;

    assert!(indexer.can_handle("comic.cbz"));
    assert!(!indexer.can_handle("comic.epub"));
    assert!(!indexer.can_handle("comic.cbz.bak"));
    assert_eq!(indexer.mime_type(), "application/vnd.comicbook+zip");
}

#[test]
fn test_extract_cbz_metadata_from_filename() {
    let indexer = CbzIndexer;
    // The archive does not exist, so there is no ComicInfo.xml to read.
    let metadata = indexer.extract_metadata("/books/My Comic.cbz", None).unwrap();

    assert_eq!(metadata.name.as_deref(), Some("My Comic"));
    assert_eq!(metadata.author, None);
    assert_eq!(metadata.icon, None);
    assert!(metadata.extra.is_empty());
}

#[test]
fn test_epub_indexer_can_handle() {
    let indexer = EpubIndexer;
    assert!(indexer.can_handle("book.epub"));
    assert!(!indexer.can_handle("book.sh"));
    assert!(!indexer.can_handle("book.pdf"));
    assert_eq!(indexer.mime_type(), "application/epub+zip");
}

#[test]
fn test_fb2_indexer_can_handle() {
    let indexer = Fb2Indexer;
    assert!(indexer.can_handle("book.fb2"));
    assert!(indexer.can_handle("book.fbz"));
    assert!(indexer.can_handle("book.fb2.zip"));
    assert!(!indexer.can_handle("book.epub"));
    assert!(!indexer.can_handle("book.sh"));
    assert_eq!(indexer.mime_type(), "application/fictionbook2+zip");
}

#[test]
fn test_finds_correct_indexer() {
    let registry = init_registry();
    assert!(find_indexer(&registry, "script.sh").is_none());
    assert!(find_indexer(&registry, "book.epub").is_some());
    assert!(find_indexer(&registry, "book.pdf").is_none());
    assert!(find_indexer(&registry, "image.png").is_none());
}

#[test]
fn test_epub_indexer_handles_epub() {
    let registry = init_registry();
    let idx = find_indexer(&registry, "book.epub").unwrap();
    assert!(idx.can_handle("book.epub"));
    assert!(!idx.can_handle("book.sh"));
    assert_eq!(idx.mime_type(), "application/epub+zip");
}

#[test]
fn test_cde_type_per_indexer() {
    let registry = init_registry();
    assert_eq!(find_indexer(&registry, "book.epub").unwrap().cde_type(), "EBOK");
    assert_eq!(find_indexer(&registry, "book.fb2").unwrap().cde_type(), "EBOK");
    assert_eq!(find_indexer(&registry, "comic.cbz").unwrap().cde_type(), "EBOK");
}

#[test]
fn extractor_test_event_type_conversion() {
    assert_eq!(ScannerEventType::from_i32(0), Some(ScannerEventType::Add));
    assert_eq!(ScannerEventType::from_i32(1), Some(ScannerEventType::Delete));
    assert_eq!(ScannerEventType::from_i32(2), Some(ScannerEventType::Update));
    assert_eq!(ScannerEventType::from_i32(3), Some(ScannerEventType::AddThumb));
    assert_eq!(ScannerEventType::from_i32(4), Some(ScannerEventType::UpdateThumb));
}

#[test]
fn extractor_test_invalid_event_type() {
    assert_eq!(ScannerEventType::from_i32(5), None);
    assert_eq!(ScannerEventType::from_i32(99), None);
    assert_eq!(ScannerEventType::from_i32(-1), None);
}

#[test]
fn natural_order_compares_numbers_by_value() {
    assert_eq!(natural_cmp("page2.png", "page10.png"), Ordering::Less);
    assert_eq!(natural_cmp("page10.png", "page2.png"), Ordering::Greater);
    assert_eq!(natural_cmp("p007.jpg", "p7.jpg"), Ordering::Greater);
    assert_eq!(natural_cmp("a.png", "B.png"), Ordering::Less);
    assert_eq!(natural_cmp("same", "same"), Ordering::Equal);
}

#[test]
fn natural_order_is_antisymmetric_on_examples() {
    let names = ["1.png", "01.png", "10.png", "2.png", "a10", "a9", "b", ""];
    for a in names.iter() {
        for b in names.iter() {
            assert_eq!(natural_cmp(a, b), natural_cmp(b, a).reverse());
        }
        assert_eq!(natural_cmp(a, a), Ordering::Equal);
    }
}

#[test]
fn take_digits_stops_at_first_non_digit() {
    let s: Vec<char> = "ab123cd".chars().collect();
    assert_eq!(take_digits(&s, 2), 5);
    assert_eq!(take_digits(&s, 0), 0);
}

#[test]
fn comic_cover_is_first_page_in_natural_order() {
    let entries = vec![
        entry("README.txt"),
        entry("pages/page10.jpg"),
        entry("pages/page2.PNG"),
        ArchiveEntry { is_file: false, enclosed_name: Some("pages/".to_string()) },
    ];
    let cover = CbzIndexer.select_cover(&entries, &None);
    assert_eq!(cover, Some((2, "png".to_string())));
}

#[test]
fn comic_info_front_cover_overrides_order() {
    let entries = vec![entry("p1.jpg"), entry("p2.jpg"), entry("p3.webp")];
    let mut info = no_info();
    info.pages = Some(ComicPages {
        page: vec![
            ComicPage { image: Some(0), kind: Some("Story".to_string()) },
            ComicPage { image: Some(2), kind: Some("FrontCover".to_string()) },
        ],
    });
    assert_eq!(front_cover_index(&info), Some(2));
    let cover = CbzIndexer.select_cover(&entries, &Some(info));
    assert_eq!(cover, Some((2, "webp".to_string())));
}

#[test]
fn comic_front_cover_out_of_range_falls_back() {
    let entries = vec![entry("b.gif"), entry("a.jpeg")];
    let mut info = no_info();
    info.pages = Some(ComicPages {
        page: vec![ComicPage { image: Some(7), kind: Some("FrontCover".to_string()) }],
    });
    let cover = CbzIndexer.select_cover(&entries, &Some(info));
    assert_eq!(cover, Some((1, "jpeg".to_string())));
}

#[test]
fn comic_without_images_has_no_cover() {
    let entries = vec![entry("README.txt"), entry("ComicInfo.xml")];
    assert_eq!(CbzIndexer.select_cover(&entries, &None), None);
}

#[test]
fn comic_info_metadata_is_used() {
    let mut info = no_info();
    info.title = Some("  ".to_string());
    info.series = Some("Saga".to_string());
    info.number = Some("3".to_string());
    info.writer = Some(" , Brian K. Vaughan, Fiona Staples".to_string());
    info.language_iso = Some("en".to_string());
    info.publisher = Some("Image".to_string());
    let m = CbzIndexer.extract_metadata("/books/saga.cbz", Some(info)).unwrap();
    assert_eq!(m.name.as_deref(), Some("Saga #3"));
    assert_eq!(m.author.as_deref(), Some("Brian K. Vaughan"));
    assert_eq!(m.extra.get("series").map(|s| s.as_str()), Some("Saga"));
    assert_eq!(m.extra.get("language").map(|s| s.as_str()), Some("en"));
    assert_eq!(m.extra.get("publisher").map(|s| s.as_str()), Some("Image"));
}

#[test]
fn epub_metadata_skips_empty_fields() {
    let meta = EpubMetadata {
        title: "The Book".to_string(),
        author: String::new(),
        language: "de".to_string(),
        date: Some("2015-07-01".to_string()),
        publisher: Some(String::new()),
        rights: None,
        description: Some("About it".to_string()),
        subjects: vec!["Fiction".to_string(), "Drama".to_string()],
        identifier: None,
    };
    let m = EpubIndexer.metadata_of(&meta);
    assert_eq!(m.name.as_deref(), Some("The Book"));
    assert_eq!(m.author, None);
    assert_eq!(m.icon, None);
    assert_eq!(m.extra.get("language").map(|s| s.as_str()), Some("de"));
    assert_eq!(m.extra.get("publicationDate").map(|s| s.as_str()), Some("2015-07-01"));
    assert_eq!(m.extra.get("description").map(|s| s.as_str()), Some("About it"));
    assert_eq!(m.extra.get("subjects").map(|s| s.as_str()), Some("Fiction, Drama"));
    assert!(m.extra.get("publisher").is_none());
    assert!(m.extra.get("rights").is_none());
}

#[test]
fn epub_cover_extension_is_lower_case() {
    assert_eq!(cover_extension("images/Cover.JPG"), "jpg");
    assert_eq!(cover_extension("cover"), "cover");
}

fn fb2_book(cover: Option<&str>, binaries: Vec<Fb2Binary>) -> Fb2Book {
    Fb2Book {
        title_info: Fb2TitleInfo {
            book_title: "Война и мир".to_string(),
            authors: vec![Fb2Author::Verbose {
                first_name: "Лев".to_string(),
                middle_name: Some("Николаевич".to_string()),
                last_name: "Толстой".to_string(),
                nickname: None,
            }],
            lang: "ru".to_string(),
            sequence_names: vec![None, Some("Классика".to_string())],
            cover_hrefs: cover.map(|c| vec![Some(c.to_string())]),
        },
        binaries,
    }
}

#[test]
fn fb2_metadata_from_title_info() {
    let book = fb2_book(None, vec![]);
    let m = Fb2Indexer.extract_metadata(&book).unwrap();
    assert_eq!(m.name.as_deref(), Some("Война и мир"));
    assert_eq!(m.author.as_deref(), Some("Лев Николаевич Толстой"));
    assert_eq!(m.extra.get("language").map(|s| s.as_str()), Some("ru"));
    assert_eq!(m.extra.get("series").map(|s| s.as_str()), Some("Классика"));
}

#[test]
fn fb2_author_name_prefers_full_name() {
    let anon = Fb2Author::Anonymous { nickname: Some(" anon ".to_string()) };
    assert_eq!(author_name(&anon).as_deref(), Some("anon"));
    let blank = Fb2Author::Verbose {
        first_name: " ".to_string(),
        middle_name: None,
        last_name: String::new(),
        nickname: Some("nick".to_string()),
    };
    assert_eq!(author_name(&blank).as_deref(), Some("nick"));
}

#[test]
fn fb2_cover_is_decoded_from_binary() {
    let book = fb2_book(
        Some("#cover.jpg"),
        vec![Fb2Binary {
            id: "cover.jpg".to_string(),
            content_type: "image/jpeg".to_string(),
            content: "/9j/4AAQ\nSkZJRgAB/9k=".to_string(),
        }],
    );
    assert_eq!(cover_href(&book.title_info).as_deref(), Some("#cover.jpg"));
    let (bytes, ext) = cover_image(&book).unwrap().unwrap();
    assert_eq!(ext, "jpg");
    assert_eq!(
        bytes,
        vec![0xff, 0xd8, 0xff, 0xe0, 0x00, 0x10, 0x4a, 0x46, 0x49, 0x46, 0x00, 0x01, 0xff, 0xd9]
    );
}

#[test]
fn fb2_missing_cover_binary_is_no_cover() {
    let book = fb2_book(Some("#nothere"), vec![]);
    assert!(cover_image(&book).unwrap().is_none());
}

#[test]
fn fb2_bad_base64_is_an_error() {
    let book = fb2_book(
        Some("#c"),
        vec![Fb2Binary {
            id: "c".to_string(),
            content_type: "image/png".to_string(),
            content: "!!!not base64!!!".to_string(),
        }],
    );
    assert!(cover_image(&book).is_err());
}

#[test]
fn fb2_image_extension_from_type_or_id() {
    assert_eq!(image_extension("image/png", "x"), "png");
    assert_eq!(image_extension("IMAGE/JPEG", "x"), "jpg");
    assert_eq!(image_extension("application/octet-stream", "pic.GIF"), "gif");
}

#[test]
fn fb2_zip_detection_and_entry_choice() {
    assert!(is_zip(&[0x50, 0x4b, 0x03, 0x04]));
    assert!(!is_zip(&[0x3c, 0x3f, 0x78, 0x6d]));
    assert!(!is_zip(&[0x50, 0x4b]));
    let entries = vec![entry("notes.txt"), entry("book.FB2")];
    assert_eq!(select_book_entry(&entries), Ok(1));
    let entries = vec![
        ArchiveEntry { is_file: false, enclosed_name: Some("dir/".to_string()) },
        entry("other.xml"),
    ];
    assert_eq!(select_book_entry(&entries), Ok(1));
    let empty: Vec<ArchiveEntry> = vec![];
    assert_eq!(select_book_entry(&empty), Err("No file entry found in archive".to_string()));
}

#[test]
fn sidecar_and_cover_paths() {
    assert_eq!(sdr_path("/mnt/us/books/a.epub"), "/mnt/us/books/a.epub.sdr");
    assert_eq!(cover_path("/x/a.epub.sdr", "png"), "/x/a.epub.sdr/cover.png");
    assert_eq!(full_path_of("/mnt/us/books", "a.cbz"), "/mnt/us/books/a.cbz");
}

#[test]
fn uuid_is_read_up_to_the_first_nul() {
    let mut buf = [0u8; 37];
    buf[..4].copy_from_slice(b"ab-1");
    assert_eq!(uuid_from_buffer(&buf), "ab-1");
    assert_eq!(uuid_from_buffer(&[0xff, 0xfe, 0]), "");
    assert_eq!(uuid_from_buffer(b"full"), "full");
}

#[test]
fn scanner_events_plan_the_work() {
    let registry = init_registry();
    assert!(matches!(
        plan_scanner_event(&registry, 9, "/mnt/us/books", "a.epub", ""),
        EventPlan::Answer(1)
    ));
    assert!(matches!(
        plan_scanner_event(&registry, 0, "/mnt/us/books", "a.pdf", ""),
        EventPlan::Answer(0)
    ));
    assert!(matches!(
        plan_scanner_event(&registry, 3, "/mnt/us/books", "a.epub", ""),
        EventPlan::Answer(0)
    ));
    match plan_scanner_event(&registry, 0, "/mnt/us/books", "a.cbz", "") {
        EventPlan::Index { indexer, full_path, is_new, cleanup, run_install_hook } => {
            assert_eq!(indexer, 1);
            assert_eq!(full_path, "/mnt/us/books/a.cbz");
            assert!(is_new);
            assert!(cleanup.is_none());
            assert!(!run_install_hook);
        }
        _ => panic!("an add indexes the book"),
    }
    match plan_scanner_event(&registry, 1, "/b", "x.fb2", "u-1") {
        EventPlan::Remove { indexer, full_path, clear } => {
            assert_eq!(indexer, 2);
            assert_eq!(full_path, "/b/x.fb2");
            assert_eq!(clear.drop_uuid.as_deref(), Some("u-1"));
            assert_eq!(clear.sdr_path, "/b/x.fb2.sdr");
        }
        _ => panic!("a delete removes the book"),
    }
    match plan_scanner_event(&registry, 2, "/b", "x.epub", "") {
        EventPlan::Index { is_new, cleanup, .. } => {
            assert!(!is_new);
            let c = cleanup.unwrap();
            assert!(c.drop_uuid.is_none());
            assert_eq!(c.sdr_path, "/b/x.epub.sdr");
        }
        _ => panic!("an update indexes again"),
    }
}

#[test]
fn indexed_change_uses_indexer_types_and_metadata() {
    let registry = init_registry();
    let m = IndexMetadata::new(Some("Title".to_string()), None, None);
    let facts = FileFacts { stat: None, contents: None };
    let r = indexed_change(&registry[1], "/b/c.cbz", "u", &m, Some("/b/c.cbz.sdr/cover.png"), false, &facts);
    assert_eq!(r.insert.mime_type, "application/vnd.comicbook+zip");
    assert_eq!(r.insert.cde_type, "EBOK");
    assert_eq!(r.insert.title, "Title");
    assert_eq!(r.insert.author, "Unknown");
    assert_eq!(r.insert.thumbnail.as_deref(), Some("/b/c.cbz.sdr/cover.png"));
    assert!(matches!(r.insert.progress, Progress::StartedAtZero { decimal: true }));
    assert!(r.insert.language.is_none());
}

#[test]
fn comic_pages_equal_in_natural_order_keep_archive_order() {
    let entries = vec![entry("B.png"), entry("b.jpg"), entry("a10.gif"), entry("a9.webp")];
    // "a9" < "a10" < "b.jpg" < "B.png".
    assert_eq!(CbzIndexer.select_cover(&entries, &None), Some((3, "webp".to_string())));
    // "Page.PNG" and "page.png" are equal in natural order: archive order decides.
    let entries = vec![entry("x.txt"), entry("Page.PNG"), entry("page.png")];
    assert_eq!(CbzIndexer.select_cover(&entries, &None), Some((1, "png".to_string())));
    let entries = vec![entry("page.png"), entry("Page.PNG")];
    assert_eq!(CbzIndexer.select_cover(&entries, &None), Some((0, "png".to_string())));
}

#[test]
fn front_cover_is_the_first_front_cover_page() {
    let mut info = no_info();
    info.pages = Some(ComicPages {
        page: vec![
            ComicPage { image: None, kind: Some("FrontCover".to_string()) },
            ComicPage { image: Some(5), kind: Some("frontcover".to_string()) },
        ],
    });
    assert_eq!(front_cover_index(&info), None);
    let mut info = no_info();
    info.pages = Some(ComicPages {
        page: vec![
            ComicPage { image: Some(0), kind: Some("Story".to_string()) },
            ComicPage { image: Some(2), kind: Some("FrontCover".to_string()) },
        ],
    });
    assert_eq!(front_cover_index(&info), Some(2));
    assert_eq!(front_cover_index(&no_info()), None);
}

#[test]
fn natural_order_equal_only_up_to_case() {
    assert_eq!(natural_cmp("Cover.WEBP", "cover.webp"), Ordering::Equal);
    assert_ne!(natural_cmp("a1", "a01"), Ordering::Equal);
    assert_ne!(natural_cmp("a", "a "), Ordering::Equal);
}

#[test]
fn index_outcome_answers_failures_with_one() {
    let registry = init_registry();
    let facts = FileFacts { stat: None, contents: None };
    let failed: Result<(IndexMetadata, Option<String>), String> = Err("broken".to_string());
    assert_eq!(index_outcome(&registry[0], "/b/x.epub", "u", &failed, true, &facts).err(), Some(1));
    let read: Result<(IndexMetadata, Option<String>), String> =
        Ok((IndexMetadata::new(Some("T".to_string()), None, None), Some("/b/x.epub.sdr/cover.jpg".to_string())));
    let change = index_outcome(&registry[0], "/b/x.epub", "u", &read, true, &facts).ok().unwrap();
    assert_eq!(change.insert.title, "T");
    assert_eq!(change.insert.thumbnail.as_deref(), Some("/b/x.epub.sdr/cover.jpg"));
    assert_eq!(change.insert.mime_type, "application/epub+zip");
}

const SAMPLE_FB2: &str = r##"<?xml version="1.0" encoding="UTF-8"?>
<FictionBook xmlns="http://www.gribuser.ru/xml/fictionbook/2.0" xmlns:l="http://www.w3.org/1999/xlink">
  <description>
    <title-info>
      <genre>sf</genre>
      <author>
        <first-name>Isaac</first-name>
        <last-name>Asimov</last-name>
      </author>
      <book-title>Foundation</book-title>
      <lang>en</lang>
      <coverpage>
        <image l:href="#cover.jpg"/>
      </coverpage>
    </title-info>
    <document-info>
      <author><nickname>uploader</nickname></author>
      <date>2020-01-01</date>
      <id>doc-id</id>
      <version>1.0</version>
    </document-info>
  </description>
  <body>
    <section><p>Hello.</p></section>
  </body>
  <binary id="cover.jpg" content-type="image/jpeg">/9j/4AAQSkZJRgAB/9k=</binary>
</FictionBook>"##;

#[test]
fn fb2_document_is_read_from_bytes() {
    let book = parse_book(SAMPLE_FB2.as_bytes()).unwrap();
    let m = Fb2Indexer.extract_metadata(&book).unwrap();
    assert_eq!(m.name.as_deref(), Some("Foundation"));
    assert_eq!(m.author.as_deref(), Some("Isaac Asimov"));
    assert_eq!(m.extra.get("language").map(|s| s.as_str()), Some("en"));
    let (bytes, ext) = cover_image(&book).unwrap().unwrap();
    assert_eq!(ext, "jpg");
    assert_eq!(bytes.len(), 14);
    assert!(parse_book(b"not xml at all").is_err());
}

#[test]
fn epub_extra_values_are_never_empty_but_for_one_empty_subject() {
    let meta = EpubMetadata {
        title: String::new(),
        author: String::new(),
        language: String::new(),
        date: Some(String::new()),
        publisher: None,
        rights: Some("CC".to_string()),
        description: Some(String::new()),
        subjects: vec![String::new()],
        identifier: Some("urn:x".to_string()),
    };
    let m = EpubIndexer.metadata_of(&meta);
    assert!(m.name.is_none());
    assert!(m.author.is_none());
    assert!(m.icon.is_none());
    assert_eq!(m.extra.get("rights").map(|s| s.as_str()), Some("CC"));
    assert_eq!(m.extra.get("identifier").map(|s| s.as_str()), Some("urn:x"));
    assert_eq!(m.extra.get("subjects").map(|s| s.as_str()), Some(""));
    assert!(m.extra.get("language").is_none());
    assert!(m.extra.get("publicationDate").is_none());
    assert!(m.extra.get("description").is_none());
    let two = EpubMetadata { subjects: vec![String::new(), String::new()], ..meta };
    let m = EpubIndexer.metadata_of(&two);
    assert_eq!(m.extra.get("subjects").map(|s| s.as_str()), Some(", "));
}

/// The bytes of a small EPUB with the given package document.
fn epub_bytes(opf: &str) -> Vec<u8> {
    let mut zip = zip::ZipWriter::new(std::io::Cursor::new(Vec::new()));
    let stored = zip::write::SimpleFileOptions::default().compression_method(zip::CompressionMethod::Stored);
    zip.start_file("mimetype", stored).unwrap();
    zip.write_all(b"application/epub+zip").unwrap();
    zip.start_file("META-INF/container.xml", stored).unwrap();
    zip.write_all(
        b"<?xml version=\"1.0\"?><container version=\"1.0\" xmlns=\"urn:oasis:names:tc:opendocument:xmlns:container\"><rootfiles><rootfile full-path=\"OEBPS/content.opf\" media-type=\"application/oebps-package+xml\"/></rootfiles></container>",
    )
    .unwrap();
    zip.start_file("OEBPS/content.opf", stored).unwrap();
    zip.write_all(opf.as_bytes()).unwrap();
    zip.start_file("OEBPS/ch1.xhtml", stored).unwrap();
    zip.write_all(b"<html xmlns=\"http://www.w3.org/1999/xhtml\"><body><p>x</p></body></html>").unwrap();
    zip.finish().unwrap().into_inner()
}

#[test]
fn epub_metadata_is_read_from_the_package() {
    let opf = r#"<?xml version="1.0" encoding="UTF-8"?>
<package xmlns="http://www.idpf.org/2007/opf" version="3.0" unique-identifier="id">
  <metadata xmlns:dc="http://purl.org/dc/elements/1.1/">
    <dc:identifier id="id">urn:uuid:1234</dc:identifier>
    <dc:title>A Title</dc:title>
    <dc:creator>An Author</dc:creator>
    <dc:language>en</dc:language>
    <dc:publisher>A Press</dc:publisher>
  </metadata>
  <manifest><item id="c1" href="ch1.xhtml" media-type="application/xhtml+xml"/></manifest>
  <spine><itemref idref="c1"/></spine>
</package>"#;
    let m = EpubIndexer.extract_metadata(&epub_bytes(opf)).unwrap();
    assert_eq!(m.name.as_deref(), Some("A Title"));
    assert_eq!(m.author.as_deref(), Some("An Author"));
    assert!(m.icon.is_none());
    assert_eq!(m.extra.get("language").map(|s| s.as_str()), Some("en"));
    assert_eq!(m.extra.get("publisher").map(|s| s.as_str()), Some("A Press"));
}

#[test]
fn epub_that_does_not_parse_is_an_error() {
    match EpubIndexer.extract_metadata(b"not a zip archive") {
        Err(e) => assert!(e.starts_with("Failed to parse EPUB: ")),
        Ok(_) => panic!("parsed"),
    }
}
