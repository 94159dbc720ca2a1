use rc2qt::parser::parse_rc_file;

fn lines(v: &[&str]) -> Vec<String> {
    v.iter().map(|s| s.to_string()).collect()
}

#[test]
fn bitmap_and_icon_captures() {
    let input = lines(&[
        "IDB_LOGO BITMAP \"img\\logo.bmp\"",
        "  IDI_APP ICON \"res/app.ico\"  ",
    ]);
    let (catalog, warnings) = parse_rc_file(&input);
    assert_eq!(catalog.bitmaps.bitmaps.len(), 1);
    assert_eq!(catalog.bitmaps.bitmaps[0].id, "IDB_LOGO");
    assert_eq!(catalog.bitmaps.bitmaps[0].file, "img/logo.bmp");
    assert_eq!(catalog.icons.icons.len(), 1);
    assert_eq!(catalog.icons.icons[0].id, "IDI_APP");
    assert_eq!(catalog.icons.icons[0].file, "res/app.ico");
    assert!(warnings.is_empty());
}

#[test]
fn bitmap_path_normalized() {
    let input = lines(&["IDB_ONE BITMAP \"a\\b.bmp\""]);
    let (catalog, _) = parse_rc_file(&input);
    assert_eq!(catalog.bitmaps.bitmaps[0].file, "a/b.bmp");
}

#[test]
fn bitmap_extended_block_attributes() {
    let input = lines(&[
        "IDB_X BITMAP \"x.bmp\"",
        "BEGIN",
        "WIDTH 32",
        "HEIGHT 16",
        "COLOR_DEPTH 24",
        "COMPRESSION RLE",
        "PALETTE grayscale",
        "DPI 96",
        "COLOR_MODE indexed",
        "COMPRESSION_LEVEL 9",
        "AUTHOR Jane Doe",
        "SOMETHING odd",
        "END",
        "IDI_Y ICON \"y.ico\"",
    ]);
    let (catalog, warnings) = parse_rc_file(&input);
    let b = &catalog.bitmaps.bitmaps[0];
    assert_eq!(b.width, Some(32));
    assert_eq!(b.height, Some(16));
    assert_eq!(b.color_depth, Some(24));
    assert_eq!(b.compression.as_deref(), Some("RLE"));
    assert_eq!(b.palette.as_deref(), Some("grayscale"));
    assert_eq!(b.dpi, Some(96));
    assert_eq!(b.color_mode.as_deref(), Some("indexed"));
    assert_eq!(b.compression_level, Some(9));
    assert_eq!(b.author.as_deref(), Some("Jane Doe"));
    assert_eq!(warnings, vec!["SOMETHING odd".to_string()]);
    // parsing resumes after the block
    assert_eq!(catalog.icons.icons.len(), 1);
}

#[test]
fn bitmap_attribute_value_bounds() {
    let input = lines(&[
        "IDB_A BITMAP \"a.bmp\"",
        "BEGIN",
        "WIDTH 4294967295",
        "END",
        "IDB_B BITMAP \"b.bmp\"",
        "BEGIN",
        "WIDTH 4294967296",
        "END",
    ]);
    let (catalog, warnings) = parse_rc_file(&input);
    assert_eq!(catalog.bitmaps.bitmaps[0].width, Some(u32::MAX));
    // a value too large for u32 is an unrecognized line, reported as a warning
    assert_eq!(catalog.bitmaps.bitmaps[1].width, None);
    assert_eq!(warnings, vec!["WIDTH 4294967296".to_string()]);
}

#[test]
fn stringtable_counts_valid_items_in_order() {
    let input = lines(&[
        "STRINGTABLE BEGIN",
        "IDS_A \"Hello\"",
        "this line matches nothing",
        "IDS_B \"World\"",
        "END",
    ]);
    let (catalog, _) = parse_rc_file(&input);
    assert_eq!(catalog.string_tables.string_tables.len(), 1);
    let table = &catalog.string_tables.string_tables[0].table;
    assert_eq!(table.len(), 2);
    assert_eq!(table[0].id, "IDS_A");
    assert_eq!(table[0].text, "Hello");
    assert_eq!(table[1].id, "IDS_B");
    assert_eq!(table[1].text, "World");
}

#[test]
fn stringtable_two_line_opener() {
    let input = lines(&["STRINGTABLE", "BEGIN", "IDS_ONE \"uno\"", "END"]);
    let (catalog, _) = parse_rc_file(&input);
    assert_eq!(catalog.string_tables.string_tables.len(), 1);
    assert_eq!(catalog.string_tables.string_tables[0].table[0].text, "uno");
}

#[test]
fn empty_stringtable_still_added() {
    let input = lines(&["STRINGTABLE BEGIN", "END"]);
    let (catalog, _) = parse_rc_file(&input);
    assert_eq!(catalog.string_tables.string_tables.len(), 1);
    assert!(catalog.string_tables.string_tables[0].table.is_empty());
}

#[test]
fn missing_end_consumes_remaining_input() {
    let input = lines(&["MENU BEGIN", "MENUITEM \"&File\"", "MENUITEM \"&Edit\""]);
    let (catalog, _) = parse_rc_file(&input);
    assert_eq!(catalog.menus.menus.len(), 1);
    assert_eq!(
        catalog.menus.menus[0].table,
        vec!["MENUITEM \"&File\"".to_string(), "MENUITEM \"&Edit\"".to_string()]
    );
}

#[test]
fn missing_end_stringtable_still_added() {
    let input = lines(&["STRINGTABLE BEGIN", "IDS_A \"Hello\""]);
    let (catalog, _) = parse_rc_file(&input);
    assert_eq!(catalog.string_tables.string_tables.len(), 1);
    assert_eq!(catalog.string_tables.string_tables[0].table.len(), 1);
}

#[test]
fn toolbar_entry_has_empty_detail_list() {
    let input = lines(&["IDR_TOOLBAR TOOLBAR \"mainToolBar\""]);
    let (catalog, _) = parse_rc_file(&input);
    assert_eq!(catalog.toolbars.toolbars.len(), 1);
    assert_eq!(catalog.toolbars.toolbars[0].id, "IDR_TOOLBAR");
    assert!(catalog.toolbars.toolbars[0].table.is_empty());
}

#[test]
fn accelerator_block_kept_verbatim() {
    let input = lines(&["ACCELERATORS BEGIN", "VK_F1, ID_HELP, VIRTKEY", "END"]);
    let (catalog, _) = parse_rc_file(&input);
    assert_eq!(catalog.accelerator_tables.accelerator_tables.len(), 1);
    let t = &catalog.accelerator_tables.accelerator_tables[0];
    assert!(t.id.is_none());
    assert_eq!(t.table, vec!["VK_F1, ID_HELP, VIRTKEY".to_string()]);
}

#[test]
fn dialog_block_kept_verbatim() {
    let input = lines(&[
        "IDD_ABOUT DIALOGEX 0, 0, 230, 75",
        "CAPTION \"About\"",
        "END",
    ]);
    let (catalog, _) = parse_rc_file(&input);
    assert_eq!(catalog.dialogs.dialogs.len(), 1);
    let d = &catalog.dialogs.dialogs[0];
    assert_eq!(d.id, "IDD_ABOUT");
    assert_eq!(d.items, vec!["CAPTION \"About\"".to_string()]);
    assert!(d.options.is_empty());
    assert!(d.numbers.is_empty());
    assert_eq!(d.caption, "");
    assert_eq!(d.style, "");
    assert_eq!(d.font, "");
}

#[test]
fn unrecognized_lines_are_ignored() {
    let input = lines(&["", "#include \"resource.h\"", "// comment", "1 24 \"app.manifest\""]);
    let (catalog, warnings) = parse_rc_file(&input);
    assert!(catalog.bitmaps.bitmaps.is_empty());
    assert!(catalog.icons.icons.is_empty());
    assert!(catalog.string_tables.string_tables.is_empty());
    assert!(catalog.toolbars.toolbars.is_empty());
    assert!(catalog.accelerator_tables.accelerator_tables.is_empty());
    assert!(catalog.menus.menus.is_empty());
    assert!(catalog.dialogs.dialogs.is_empty());
    assert!(warnings.is_empty());
}
