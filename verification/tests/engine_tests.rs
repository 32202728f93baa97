use std::collections::HashSet;

use tipiak::client::{
    completion, decode_filters, display_path, encode_filters, icon_for_type, selected_file_types, Icon,
};
use tipiak::commands::{CrawlCommand, SearchCommand};
use tipiak::config::{Config, DB_NAME};
use tipiak::crawler::{crawl_start, entry_action, new_files, schema_sql, tokens_content, tokens_of_contents, EntryAction};
use tipiak::exif_text::{hex_string_to_bytes, user_comment_to_string};
use tipiak::media_metadata::{
    extend_field, is_indexable_human_text, is_valid_token, sanitize_words, MediaMetadata, MetadataField,
};
use tipiak::metadata::{
    ExifField, ExifMetadataExtractor, ExifTag, ExtractorKind, Id3Fields, Id3MetadataExtractor, IptcField,
    IptcMetadataExtractor, IptcTag, MetadataError, MetadataExtractor, MetadataExtractorRegistry,
    XmpMetadataExtractor,
};
use tipiak::paths::{is_file_type, is_image_file, join_path, to_lowercase};
use tipiak::searcher::{search, search_sql, signed_decimal, split_char, FileTypeFilters, SearchError};
use tipiak::text::{contains_str, join, split_whitespace};
use tipiak::tokenizers::{
    ExifTokenizer, FileNameTokenizer, FilePathTokenizer, Id3Tokenizer, IptcTokenizer, MarkdownTitleTokenizer,
    MetadataTokenizer, ParagraphTokenizer, Tokenizer, TokenizerKind, TokenizerRegistry, XmpTokenizer,
};
use tipiak::tokens::tokenize_string as tokenize;
use tipiak::xmp::{search_packet, XmpScanner, XmpSearch};

fn set(v: Vec<String>) -> HashSet<String> {
    v.into_iter().collect()
}

fn words(v: &[&str]) -> HashSet<String> {
    v.iter().map(|s| s.to_string()).collect()
}

fn strings(v: &[&str]) -> Vec<String> {
    v.iter().map(|s| s.to_string()).collect()
}

#[test]
fn tokenize_string() {
    let tokens = tokenize("toto abc_defg-xyz 2026!:dsq;da");
    assert_eq!(
        set(tokens),
        vec!["2026", "abc", "xyz", "defg", "dsq", "toto"]
            .into_iter()
            .map(|t| t.to_string())
            .collect::<HashSet<String>>()
    )
}

#[test]
fn tokens_are_lowercase_unique_and_skip_stop_words_and_single_digits() {
    let tokens = tokenize("Rocket ROCKET rocket the 7 42 Café");
    assert_eq!(tokens.len(), set(tokens.clone()).len());
    assert_eq!(set(tokens), words(&["rocket", "42", "caf"]));
    assert!(tokenize("").is_empty());
}

#[test]
fn file_path_tokens_are_relative_to_root() {
    let t = FilePathTokenizer;
    assert!(t.supports("/any/thing"));
    let tokens = t.tokenize("/data/storage/Holidays/beach-photo.jpg", "/data/storage");
    assert_eq!(set(tokens), words(&["holidays", "beach", "photo", "jpg"]));
    assert!(t.tokenize("/elsewhere/x.txt", "/data/storage").is_empty());
}

#[test]
fn file_name_tokens_drop_the_extension() {
    let t = FileNameTokenizer;
    assert_eq!(set(t.tokenize("/a/b/Quarterly_Report.pdf")), words(&["quarterly", "report"]));
}

#[test]
fn paragraph_reads_the_first_ten_words() {
    let t = ParagraphTokenizer;
    assert!(t.supports("notes.MD"));
    assert!(!t.supports("notes.pdf"));
    let lines = strings(&[
        "alpha banjo charlie delta echo",
        "foxtrot golf hotel india juliett kilo",
        "lima mike",
    ]);
    let tokens = set(t.tokenize(&lines));
    assert_eq!(
        tokens,
        words(&["alpha", "banjo", "charlie", "delta", "echo", "foxtrot", "golf", "hotel", "india", "juliett"])
    );
    let one_line = strings(&["alpha bravo charlie delta echo foxtrot golf hotel india juliet kilo lima"]);
    let tokens = t.tokenize(&one_line);
    assert!(tokens.len() <= 10);
    assert!(!tokens.contains(&"kilo".to_string()));
    assert!(!tokens.contains(&"lima".to_string()));
    assert_eq!(t.first_words(&strings(&["", "a b", "c"])), strings(&["a", "b", "c"]));
}

#[test]
fn xmp_subject_lists_give_every_item() {
    let xml = "<x:xmpmeta><rdf:RDF><rdf:Description><dc:subject><rdf:Bag><rdf:li>alpha</rdf:li><rdf:li>beta</rdf:li></rdf:Bag></dc:subject></rdf:Description></rdf:RDF></x:xmpmeta>";
    let tokens = XmpTokenizer.tokenize(Some(xml)).expect("well-formed");
    assert_eq!(set(tokens), words(&["alpha", "beta"]));
    let m = XmpMetadataExtractor.extract(Some(xml)).unwrap().expect("metadata");
    assert_eq!(m.tags, Some("alpha beta".to_string()));
}

#[test]
fn markdown_titles_give_heading_words() {
    let t = MarkdownTitleTokenizer;
    let lines = strings(&["# Introduction here", "plain text", "### Setup", "####Deep"]);
    assert_eq!(set(t.tokenize(&lines)), words(&["introduction", "setup", "deep"]));
}

#[test]
fn id3_tokens_come_from_four_frames() {
    let t = Id3Tokenizer;
    assert!(t.supports("song.mp3"));
    let tags = Id3Fields {
        artist: Some("Daft Punk".to_string()),
        title: Some("Blue Horizon".to_string()),
        album: None,
        genre: Some("House".to_string()),
    };
    assert_eq!(set(t.tokenize(&tags)), words(&["daft", "punk", "blue", "horizon", "house"]));
}

#[test]
fn exif_tokens_include_decoded_user_comment() {
    let t = ExifTokenizer;
    assert!(t.supports("IMG.JPG"));
    let comment = "0x4153434949000000476f6f64206d6f726e696e67";
    let fields = vec![
        ExifField { tag: ExifTag::ImageDescription, value: "\"Sunset sea\"".to_string() },
        ExifField { tag: ExifTag::UserComment, value: comment.to_string() },
        ExifField { tag: ExifTag::Other, value: "ignored".to_string() },
    ];
    assert_eq!(set(t.tokenize(&fields)), words(&["sunset", "sea", "morning"]));
}

#[test]
fn iptc_tokens_skip_other_tags() {
    let t = IptcTokenizer;
    assert!(t.supports("a.jpeg"));
    assert!(!t.supports("a.png"));
    let fields = vec![
        IptcField { tag: IptcTag::Keywords, values: strings(&["mountain", "snow"]) },
        IptcField { tag: IptcTag::Other, values: strings(&["secret"]) },
        IptcField { tag: IptcTag::Credit, values: strings(&["Jane Doe"]) },
    ];
    assert_eq!(set(t.tokenize(&fields)), words(&["mountain", "snow", "jane", "doe"]));
}

const XMP: &str = "<x:xmpmeta xmlns:x=\"adobe:ns:meta/\"><rdf:RDF><rdf:Description>\
<dc:title><rdf:Alt><rdf:li>Harbour Lights</rdf:li></rdf:Alt></dc:title>\
<dc:creator><rdf:Seq><rdf:li>Ana Lopez</rdf:li></rdf:Seq></dc:creator>\
<photoshop:Headline>Evening Boats</photoshop:Headline>\
<other:Thing>hidden words</other:Thing>\
</rdf:Description></rdf:RDF></x:xmpmeta>";

#[test]
fn xmp_tokens_come_from_dublin_core_and_headline() {
    let t = XmpTokenizer;
    assert!(t.supports("clip.mov"));
    let tokens = t.tokenize(Some(XMP)).expect("well-formed");
    assert_eq!(set(tokens), words(&["harbour", "lights", "ana", "lopez", "evening", "boats"]));
    assert!(t.tokenize(None).unwrap().is_empty());
    assert_eq!(t.tokenize(Some("<a><b></a>")).unwrap_err(), MetadataError::InvalidXml);
}

#[test]
fn xmp_metadata_extends_fields() {
    let m = XmpMetadataExtractor.extract(Some(XMP)).unwrap().expect("metadata");
    assert_eq!(m.title, Some("Harbour Lights Evening Boats".to_string()));
    assert_eq!(m.author, Some("Ana Lopez".to_string()));
    assert_eq!(m.description, None);
}

#[test]
fn xmp_packet_is_found_across_chunks() {
    let mut scanner = XmpScanner::new();
    let bytes = format!("junk{}tail", XMP).into_bytes();
    let (a, b) = bytes.split_at(20);
    assert!(matches!(scanner.feed(a), XmpSearch::NotFound));
    match scanner.feed(b) {
        XmpSearch::Found(Some(text)) => assert_eq!(text, XMP),
        other => panic!("unexpected {:?}", other),
    }
    assert!(matches!(search_packet(b"no packet here"), XmpSearch::NotFound));
    assert!(matches!(search_packet(b"</x:xmpmeta> <x:xmpmeta"), XmpSearch::Found(None)));
}

#[test]
fn zim_tokenizer_supports_zim_files() {
    assert!(TokenizerKind::Zim.supports("wiki.ZIM"));
    assert!(!TokenizerKind::Zim.supports("wiki.zip"));
}

#[test]
fn registry_picks_tokenizers_by_extension() {
    let r = TokenizerRegistry::new("/root");
    assert_eq!(r.tokenizers.len(), 8);
    assert_eq!(r.tokenizers_for("x.md"), vec![TokenizerKind::FilePath, TokenizerKind::Paragraph, TokenizerKind::MarkdownTitle]);
    assert_eq!(
        r.tokenizers_for("x.jpg"),
        vec![TokenizerKind::FilePath, TokenizerKind::Exif, TokenizerKind::Iptc, TokenizerKind::Xmp]
    );
    assert_eq!(r.tokenizers_for("x.unknown"), vec![TokenizerKind::FilePath]);
    let merged = TokenizerRegistry::merge(vec![strings(&["a", "b"]), vec![], strings(&["a"])]);
    assert_eq!(merged, strings(&["a", "b", "a"]));
}

#[test]
fn metadata_tokens_keep_words_in_field_order() {
    let m = MediaMetadata {
        title: Some("Big Day".to_string()),
        description: Some("a 12 xy".to_string()),
        tags: None,
        author: Some("Me".to_string()),
    };
    assert_eq!(m.tokenize(), strings(&["Big", "Day", "xy", "Me"]));
    assert!(!m.is_null());
    let only_title = MediaMetadata { title: Some("T".to_string()), description: None, tags: None, author: None };
    assert!(only_title.is_null());
    let t = MetadataTokenizer;
    assert!(t.supports("a.wav"));
    assert_eq!(t.tokenize(&vec![m]), strings(&["Big", "Day", "xy", "Me"]));
}

#[test]
fn extending_a_field_joins_with_a_space() {
    let mut f = None;
    extend_field(&mut f, "one".to_string());
    assert_eq!(f, Some("one".to_string()));
    extend_field(&mut f, "two".to_string());
    assert_eq!(f, Some("one two".to_string()));
    let mut m = MediaMetadata::new();
    m.extend(MetadataField::Tags, "x".to_string());
    m.extend(MetadataField::Tags, "y".to_string());
    assert_eq!(m.tags, Some("x y".to_string()));
}

#[test]
fn sanitizing_removes_punctuation() {
    assert_eq!(sanitize_words("  \"Hello,   world!\" -- ok "), "Hello world ok");
    assert_eq!(sanitize_words("!!"), "");
    assert!(is_valid_token("ab"));
    assert!(!is_valid_token("a"));
    assert!(!is_valid_token("123"));
    assert!(is_valid_token("1a"));
    assert!(is_indexable_human_text("Good morning"));
    assert!(!is_indexable_human_text("1234"));
    assert!(!is_indexable_human_text("ab\u{1}cd"));
}

#[test]
fn exif_metadata_sets_fields() {
    let e = ExifMetadataExtractor;
    assert!(e.supports("x.webp"));
    let fields = vec![
        ExifField { tag: ExifTag::ImageDescription, value: "\"A calm lake\"".to_string() },
        ExifField { tag: ExifTag::Artist, value: "\"Bob\"".to_string() },
        ExifField { tag: ExifTag::UserComment, value: "0x4153434949000000476f6f64206d6f726e696e67".to_string() },
    ];
    let m = e.extract(&fields).expect("metadata");
    assert_eq!(m.title, Some("A calm lake".to_string()));
    assert_eq!(m.author, Some("Bob".to_string()));
    assert_eq!(m.description, Some("Good morning".to_string()));
    assert!(e.extract(&vec![]).is_none());
}

#[test]
fn iptc_metadata_joins_values() {
    let e = IptcMetadataExtractor;
    let fields = vec![
        IptcField { tag: IptcTag::Keywords, values: strings(&["red", "car"]) },
        IptcField { tag: IptcTag::Category, values: strings(&["auto!"]) },
    ];
    let m = e.extract(&fields).expect("metadata");
    assert_eq!(m.tags, Some("red car auto".to_string()));
    assert!(e.extract(&vec![IptcField { tag: IptcTag::Headline, values: strings(&["t"]) }]).is_none());
}

#[test]
fn id3_metadata_maps_frames() {
    let e = Id3MetadataExtractor;
    let tags = Id3Fields {
        artist: Some("A".to_string()),
        title: Some("T".to_string()),
        album: Some("Al".to_string()),
        genre: None,
    };
    let m = e.extract(&tags).expect("metadata");
    assert_eq!(m.author, Some("A".to_string()));
    assert_eq!(m.description, Some("Al".to_string()));
    assert_eq!(m.tags, None);
}

#[test]
fn metadata_registry_filters_and_collects() {
    let r = MetadataExtractorRegistry::new();
    assert_eq!(r.extractors_for("a.jpg"), vec![ExtractorKind::Exif, ExtractorKind::Iptc]);
    assert_eq!(r.extractors_for("a.png"), vec![ExtractorKind::Exif]);
    assert!(r.extractors_for("a.mp3").is_empty());
    let got = MetadataExtractorRegistry::collect(vec![None, Some(MediaMetadata::new()), None]);
    assert_eq!(got.len(), 1);
}

#[test]
fn hex_and_user_comment_decoding() {
    assert_eq!(hex_string_to_bytes("0x41ff"), Some(vec![0x41, 0xff]));
    assert_eq!(hex_string_to_bytes("41ff"), None);
    assert_eq!(hex_string_to_bytes("0x4"), None);
    assert_eq!(hex_string_to_bytes("0xzz"), None);
    let mut raw = b"ASCII\0\0\0".to_vec();
    raw.extend_from_slice(b"  hi there\0 ");
    assert_eq!(user_comment_to_string(&raw), Some("hi there".to_string()));
    let mut short = b"ASCII\0\0\0".to_vec();
    short.extend_from_slice(b" ab ");
    assert_eq!(user_comment_to_string(&short), None);
    assert_eq!(user_comment_to_string(b"UNICODE\0hello"), None);
    assert_eq!(user_comment_to_string(b"abc"), None);
}

#[test]
fn filters_split_on_bars() {
    let f = FileTypeFilters::from_string("images|videos".to_string());
    assert_eq!(f.file_type_names, strings(&["images", "videos"]));
    let e = FileTypeFilters::from_string("".to_string());
    assert_eq!(e.file_type_names, strings(&[""]));
    assert_eq!(split_char("a||b|", '|'), strings(&["a", "", "b", ""]));
    assert_eq!(
        f.file_types_query(),
        Some("SELECT * FROM file_types WHERE name IN (?, ?);".to_string())
    );
    let none = FileTypeFilters { file_type_names: vec![] };
    assert_eq!(none.file_types_query(), None);
}

#[test]
fn search_needs_a_database_and_tokens() {
    assert_eq!(search(false, "cats").unwrap_err(), SearchError::DatabaseNotFound);
    assert_eq!(SearchError::DatabaseNotFound.to_string(), ".db file not found");
    assert!(search(true, "the a 1").unwrap().is_none());
    let q = search(true, "Cats dogs").unwrap().expect("query");
    assert_eq!(set(q.tokens.clone()), words(&["cats", "dogs"]));
    assert!(q.match_expr == "cats OR dogs" || q.match_expr == "dogs OR cats");
}

#[test]
fn search_sql_adds_type_condition() {
    let plain = search_sql(None);
    assert!(plain.contains("WHERE tokens MATCH ?\n    ORDER BY RANK;"));
    let with = search_sql(Some(&vec![3, -1, 12]));
    assert!(with.contains("MATCH ? AND f.type_id IN (3, -1, 12)\n    ORDER BY RANK;"));
    assert_eq!(signed_decimal(i64::MIN), i64::MIN.to_string());
    assert_eq!(signed_decimal(0), "0");
}

#[test]
fn config_defaults_and_lookups() {
    let c = Config::default_config();
    assert_eq!(c.file_type_names(), strings(&["images", "videos", "sounds", "web", "text"]));
    assert_eq!(c.get_file_type_from_ext("JPG"), Some("images".to_string()));
    assert_eq!(c.get_file_type_from_ext("md"), Some("text".to_string()));
    assert_eq!(c.get_file_type_from_ext("exe"), None);
    assert_eq!(c.get_db_path("/srv/data"), format!("/srv/data/{}", DB_NAME));
    assert_eq!(c.get_db_path("/srv/data/"), format!("/srv/data/{}", DB_NAME));
    let over = Config { file_types: vec![], db_override_path: Some("/var/db".to_string()) };
    assert_eq!(over.get_db_path("/srv"), format!("/var/db/{}", DB_NAME));
    let merged = Config::from_layers(&vec![over]);
    assert_eq!(merged.db_override_path, Some("/var/db".to_string()));
    assert!(merged.file_types.is_empty());
    assert_eq!(Config::from_layers(&vec![]).file_types.len(), 5);
}

#[test]
fn crawl_decisions() {
    let c = Config::default_config();
    assert!(matches!(entry_action(&c, false, "dir", Some("/r/dir")), EntryAction::Skip));
    assert!(matches!(entry_action(&c, true, DB_NAME, Some("/r/x.db")), EntryAction::Skip));
    assert!(matches!(entry_action(&c, true, "x", None), EntryAction::Skip));
    assert!(matches!(entry_action(&c, true, "Makefile", Some("/r/Makefile")), EntryAction::NoExtension));
    match entry_action(&c, true, "a.exe", Some("/r/a.exe")) {
        EntryAction::Unsupported(e) => assert_eq!(e, "exe"),
        other => panic!("unexpected {:?}", other),
    }
    match entry_action(&c, true, "a.MP3", Some("/r/a.MP3")) {
        EntryAction::Record(t) => assert_eq!(t, "sounds"),
        other => panic!("unexpected {:?}", other),
    }
    let s = crawl_start(true, true);
    assert!(s.remove_database && s.create_schema);
    let s = crawl_start(true, false);
    assert!(!s.remove_database && !s.create_schema);
    let s = crawl_start(false, false);
    assert!(!s.remove_database && s.create_schema);
    let sql = schema_sql();
    assert!(sql.starts_with("BEGIN;\nCREATE TABLE file_types ("));
    assert!(sql.ends_with(");\nCOMMIT;"));
    assert_eq!(tokens_content(&strings(&["a", "b"])), Some("a b".to_string()));
    assert_eq!(tokens_content(&vec![]), None);
    let all = tokens_of_contents(&strings(&["a b", "b  c", ""]));
    assert_eq!(set(all.clone()), words(&["a", "b", "c"]));
    assert_eq!(all.len(), 3);
}

#[test]
fn filter_encoding_round_trips() {
    let f = vec![true, false, true, true];
    let s = encode_filters(&f);
    assert_eq!(s, "1011");
    assert_eq!(decode_filters(&s), f);
    assert_eq!(decode_filters("1x0"), vec![true, false, false]);
}

#[test]
fn icons_by_type() {
    assert_eq!(icon_for_type("images"), Icon::Images);
    assert_eq!(icon_for_type("web"), Icon::Web);
    assert_eq!(icon_for_type("other"), Icon::Placeholder);
}

#[test]
fn completion_matches_words_of_the_pattern() {
    let tokens = strings(&["holiday", "Beach", "harbour", "car"]);
    assert_eq!(completion("", &tokens), Vec::<String>::new());
    assert_eq!(completion("BEA day", &tokens), strings(&["holiday", "Beach"]));
    assert_eq!(completion("zzz", &tokens), Vec::<String>::new());
}

#[test]
fn selected_types_and_display_paths() {
    let names = strings(&["images", "videos", "web"]);
    assert_eq!(selected_file_types(&names, &vec![true, false, true]), "images|web");
    assert_eq!(selected_file_types(&names, &vec![false, false, false]), "");
    let text = selected_file_types(&names, &vec![true, true, false]);
    assert_eq!(FileTypeFilters::from_string(text).file_type_names, strings(&["images", "videos"]));
    assert_eq!(display_path("/srv/data/a/b.txt", "/srv/data"), "a/b.txt");
    assert_eq!(display_path("/other/b.txt", "/srv/data"), "/other/b.txt");
}

#[test]
fn command_defaults() {
    let c = CrawlCommand { path: None, reset: false };
    assert_eq!(c.root_dir(), ".");
    let s = SearchCommand { pattern: "x".to_string(), filters: Some("a|b".to_string()), path: Some("/p".to_string()) };
    assert_eq!(s.root_dir(), "/p");
    assert_eq!(s.file_type_filters().unwrap().file_type_names, strings(&["a", "b"]));
}

#[test]
fn text_helpers() {
    assert_eq!(split_whitespace("  a\tbc \n d "), strings(&["a", "bc", "d"]));
    assert_eq!(join(&strings(&["x", "y", "z"]), ", "), "x, y, z");
    assert_eq!(join(&[], ", "), "");
    assert!(contains_str("haystack", "st"));
    assert!(!contains_str("hay", "hays"));
    assert!(contains_str("hay", ""));
    assert_eq!(to_lowercase("ÀB"), "àb");
    assert_eq!(join_path("", "f"), "f");
    assert!(is_file_type("a/b.TXT", vec!["txt"]));
    assert!(!is_file_type("a/.txt", vec!["txt"]));
    assert!(is_image_file("x.heif"));
}

use tipiak::ui::{
    filter_active, filters_for_types, media_url, preview_for_type, search_route, toggle_filter, Preview, SearchBar,
    SearchBarAction, SearchBarEvent,
};

#[test]
fn search_bar_completion_flow() {
    let mut bar = SearchBar::new();
    match bar.handle(SearchBarEvent::Input("blue hor".to_string())) {
        SearchBarAction::Complete(w) => assert_eq!(w, "hor"),
        other => panic!("unexpected {:?}", other),
    }
    assert!(matches!(bar.handle(SearchBarEvent::Completed(Some(strings(&["horizon", "horse"])))), SearchBarAction::Nothing));
    assert!(bar.show_dropdown);
    bar.handle(SearchBarEvent::ArrowDown);
    assert_eq!(bar.selected_index, Some(0));
    bar.handle(SearchBarEvent::ArrowDown);
    assert_eq!(bar.selected_index, Some(1));
    bar.handle(SearchBarEvent::ArrowDown);
    assert_eq!(bar.selected_index, Some(0));
    bar.handle(SearchBarEvent::ArrowUp);
    assert_eq!(bar.selected_index, Some(1));
    assert!(matches!(bar.handle(SearchBarEvent::Enter), SearchBarAction::Focus));
    assert_eq!(bar.pattern, "blue horse");
    assert!(!bar.show_dropdown);
    assert!(matches!(bar.handle(SearchBarEvent::Enter), SearchBarAction::Submit));
}

#[test]
fn search_bar_closes_on_trailing_space_and_failures() {
    let mut bar = SearchBar::new();
    bar.handle(SearchBarEvent::Input("ab".to_string()));
    bar.handle(SearchBarEvent::Completed(Some(strings(&["abc"]))));
    assert!(bar.show_dropdown);
    assert!(matches!(bar.handle(SearchBarEvent::Input("ab ".to_string())), SearchBarAction::Nothing));
    assert!(!bar.show_dropdown);
    assert!(bar.suggestions.is_empty());
    bar.handle(SearchBarEvent::Completed(None));
    assert!(!bar.show_dropdown);
    bar.handle(SearchBarEvent::Input("x".to_string()));
    bar.handle(SearchBarEvent::Completed(Some(strings(&["xylophone"]))));
    assert!(matches!(bar.handle(SearchBarEvent::Pick(0)), SearchBarAction::Focus));
    assert_eq!(bar.pattern, "xylophone");
    assert!(matches!(bar.handle(SearchBarEvent::Pick(5)), SearchBarAction::Nothing));
}

#[test]
fn filter_buttons_and_routes() {
    assert_eq!(filters_for_types(&vec![false], 3), vec![true, true, true]);
    assert_eq!(filters_for_types(&vec![false, true], 2), vec![false, true]);
    let mut f = vec![true, false];
    toggle_filter(&mut f, 1);
    assert_eq!(f, vec![true, true]);
    toggle_filter(&mut f, 9);
    assert_eq!(f, vec![true, true]);
    assert!(filter_active(&f, 0));
    assert!(!filter_active(&f, 5));
    assert_eq!(preview_for_type("videos"), Preview::Video);
    assert_eq!(preview_for_type("web"), Preview::Unavailable);
    assert_eq!(media_url(42), "/api/media/42");
    let r = search_route("  red car \n", &[true, false]);
    assert_eq!(r.pattern, "red car");
    assert_eq!(r.filters, "10");
}

#[test]
fn stored_tokens_tokenize_back_to_themselves() {
    let mut tokens = tokenize("Holiday photos: Beach-2024, SUNSET and sea!");
    tokens.extend(tokenize("beach umbrella"));
    let content = tokens_content(&tokens).expect("some tokens");
    assert_eq!(set(tokenize(&content)), set(tokens));
}

#[test]
fn hex_bytes_survive_encode_then_decode() {
    assert_eq!(hex_string_to_bytes("0x48656c6c6f"), Some(b"Hello".to_vec()));
    assert_eq!(hex_string_to_bytes("0xaé0"), None);
    assert_eq!(hex_string_to_bytes("0x"), Some(vec![]));
    let bytes: Vec<u8> = vec![0x00, 0x0f, 0x10, 0x7f, 0x80, 0xff];
    let mut s = String::from("0x");
    for b in &bytes {
        s.push_str(&format!("{:02x}", b));
    }
    assert_eq!(hex_string_to_bytes(&s), Some(bytes));
}

#[test]
fn config_file_without_file_types_gets_the_defaults() {
    let c = Config::from_file_settings(None, Some("/var/db".to_string()));
    assert_eq!(c.file_type_names(), strings(&["images", "videos", "sounds", "web", "text"]));
    assert_eq!(c.db_override_path, Some("/var/db".to_string()));
    let given = vec![("docs".to_string(), vec!["pdf".to_string()])];
    let d = Config::from_file_settings(Some(given), None);
    assert_eq!(d.file_type_names(), strings(&["docs"]));
    assert_eq!(d.get_file_type_from_ext("pdf"), Some("docs".to_string()));
    assert_eq!(d.db_override_path, None);
}

fn pairs(v: &[(&str, &str)]) -> Vec<(String, String)> {
    v.iter().map(|(a, b)| (a.to_string(), b.to_string())).collect()
}

#[test]
fn a_crawl_adds_each_new_file_once_and_a_second_crawl_adds_nothing() {
    let known = strings(&["/r/old.txt"]);
    let found = pairs(&[
        ("/r/old.txt", "text"),
        ("/r/a.jpg", "images"),
        ("/r/b.mp3", "sounds"),
        ("/r/a.jpg", "images"),
    ]);
    let added = new_files(&known, &found);
    assert_eq!(added, pairs(&[("/r/a.jpg", "images"), ("/r/b.mp3", "sounds")]));
    let mut after = known.clone();
    after.extend(added.into_iter().map(|(p, _)| p));
    assert!(new_files(&after, &found).is_empty());
    assert!(new_files(&strings(&[]), &pairs(&[])).is_empty());
}

#[test]
fn config_file_types_have_distinct_names() {
    let names = Config::default_config().file_type_names();
    let unique: HashSet<String> = names.iter().cloned().collect();
    assert_eq!(unique.len(), names.len());
}
