use rc2qt::pattern::classify_attr;
use rc2qt::pattern::kw_begin_line;
use rc2qt::pattern::match_control;
use rc2qt::pattern::match_decl;
use rc2qt::pattern::match_dialog;
use rc2qt::pattern::match_item;
use rc2qt::pattern::normalize_path;
use rc2qt::pattern::BitmapAttr;
use rc2qt::scan::parse_u32;
use rc2qt::scan::trim_line;

#[test]
fn decl_matcher_captures_id_and_value() {
    let r = match_decl("IDB_LOGO BITMAP \"res\\logo.bmp\"", "BITMAP");
    assert_eq!(
        r,
        Some(("IDB_LOGO".to_string(), "res\\logo.bmp".to_string()))
    );
    assert_eq!(match_decl("IDB_LOGO BITMAP \"\"", "BITMAP"), None);
    assert_eq!(match_decl("BITMAP \"x.bmp\"", "BITMAP"), None);
    assert_eq!(match_decl("IDB_LOGO ICON \"x.ico\"", "BITMAP"), None);
    assert_eq!(match_decl("IDB_LOGO BITMAP \"x.bmp\" extra", "BITMAP"), None);
}

#[test]
fn item_matcher_captures_id_and_text() {
    assert_eq!(
        match_item("IDS_GREETING \"Hello, world\""),
        Some(("IDS_GREETING".to_string(), "Hello, world".to_string()))
    );
    assert_eq!(match_item("IDS_GREETING"), None);
    assert_eq!(match_item("\"text only\""), None);
}

#[test]
fn block_openers() {
    assert!(kw_begin_line("STRINGTABLE BEGIN", "STRINGTABLE"));
    assert!(kw_begin_line("MENU  BEGIN", "MENU"));
    assert!(!kw_begin_line("STRINGTABLE", "STRINGTABLE"));
    assert!(!kw_begin_line("STRINGTABLE BEGINX", "STRINGTABLE"));
    assert!(!kw_begin_line("XSTRINGTABLE BEGIN", "STRINGTABLE"));
}

#[test]
fn dialog_matcher() {
    assert_eq!(
        match_dialog("IDD_ABOUT DIALOGEX 0, 0, 230, 75"),
        Some("IDD_ABOUT".to_string())
    );
    assert_eq!(match_dialog("IDD_ABOUT DIALOGEX"), Some("IDD_ABOUT".to_string()));
    assert_eq!(match_dialog("IDD_ABOUT DIALOGEXTRA 1"), None);
    assert_eq!(match_dialog("DIALOGEX 0, 0, 1, 1"), None);
}

#[test]
fn control_matcher_captures_geometry() {
    let c = match_control("CONTROL \"OK\", 101, BUTTON, WS_TABSTOP, 10, 10, 50, 14").unwrap();
    assert_eq!(c.text, "OK");
    assert_eq!(c.id, "101");
    assert_eq!(c.x, "10");
    assert_eq!(c.y, "10");
    assert_eq!(c.width, "50");
    assert_eq!(c.height, "14");
    let c2 = match_control("CONTROL \"Button\", IDC_BUTTON1, BUTTON, WS_TABSTOP, 1, 2, 3, 4")
        .unwrap();
    assert_eq!(c2.id, "IDC_BUTTON1");
    assert!(match_control("LTEXT \"Label\", IDC_STATIC, 7, 7, 100, 8").is_none());
    assert!(match_control("CONTROL \"OK\", 101, EDIT, WS_TABSTOP, 1, 2, 3, 4").is_none());
}

#[test]
fn attribute_classification() {
    assert_eq!(classify_attr("WIDTH 32"), BitmapAttr::Width(32));
    assert_eq!(classify_attr("AUTHOR Jane Doe"), BitmapAttr::Author("Jane Doe".to_string()));
    assert_eq!(
        classify_attr("COMPRESSION_LEVEL 9"),
        BitmapAttr::CompressionLevel(9)
    );
    assert_eq!(classify_attr("COMPRESSION RLE"), BitmapAttr::Compression("RLE".to_string()));
    assert_eq!(classify_attr("WIDTH"), BitmapAttr::Unknown);
    assert_eq!(classify_attr("WIDTH abc"), BitmapAttr::Unknown);
    assert_eq!(classify_attr("WIDTHX 3"), BitmapAttr::Unknown);
}

#[test]
fn parse_u32_bounds() {
    assert_eq!(parse_u32("0"), Some(0));
    assert_eq!(parse_u32("4294967295"), Some(u32::MAX));
    assert_eq!(parse_u32("4294967296"), None);
    assert_eq!(parse_u32(""), None);
    assert_eq!(parse_u32("12a"), None);
}

#[test]
fn trim_and_normalize() {
    assert_eq!(trim_line("  \t hello \r\n"), "hello");
    assert_eq!(trim_line("   "), "");
    assert_eq!(trim_line("plain"), "plain");
    assert_eq!(normalize_path("a\\b\\c.bmp"), "a/b/c.bmp");
    assert_eq!(normalize_path("a/b.bmp"), "a/b.bmp");
}
