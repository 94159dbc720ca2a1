use rc2qt::generator::create_qrc_file;
use rc2qt::generator::create_ui_file;
use rc2qt::generator::xml_escape;
use rc2qt::generator::QrcEntry;
use rc2qt::parser::parse_rc_file;
use rc2qt::resource::RcBitmap;
use rc2qt::resource::RcBitmapList;
use rc2qt::resource::RcDialogEx;
use rc2qt::resource::RcDialogExList;
use rc2qt::resource::RcStringTableList;
use rc2qt::shim::render_shim;

fn lines(v: &[&str]) -> Vec<String> {
    v.iter().map(|s| s.to_string()).collect()
}

#[test]
fn qrc_empty_mapping() {
    let out = create_qrc_file(&Vec::new());
    assert_eq!(
        out,
        "<RCC>\n  <qresource prefix=\"/\">\n  </qresource>\n</RCC>\n"
    );
}

#[test]
fn qrc_one_entry() {
    let resources = vec![QrcEntry { name: "foo".to_string(), path: "a/b.bmp".to_string() }];
    let out = create_qrc_file(&resources);
    assert_eq!(
        out,
        "<RCC>\n  <qresource prefix=\"/\">\n    <file>a/b.bmp</file>\n  </qresource>\n</RCC>\n"
    );
}

#[test]
fn qrc_path_is_escaped() {
    let resources = vec![QrcEntry { name: "odd".to_string(), path: "a<b>&c.bmp".to_string() }];
    let out = create_qrc_file(&resources);
    assert!(out.contains("<file>a&lt;b&gt;&amp;c.bmp</file>"));
}

#[test]
fn xml_escape_replaces_entities() {
    assert_eq!(xml_escape("a<b>&c"), "a&lt;b&gt;&amp;c");
    assert_eq!(xml_escape("plain"), "plain");
    assert_eq!(xml_escape(""), "");
}

#[test]
fn ui_form_with_one_control() {
    let controls = lines(&["CONTROL \"OK\", 101, BUTTON, WS_TABSTOP, 10, 10, 50, 14"]);
    let out = create_ui_file("MyDialog", &controls);
    assert!(out.contains("<widget class=\"QPushButton\" name=\"button_101\">"));
    assert!(out.contains("<x>10</x>"));
    assert!(out.contains("<y>10</y>"));
    assert!(out.contains("<width>50</width>"));
    assert!(out.contains("<height>14</height>"));
    assert!(out.contains("<property name=\"text\">OK</property>"));
    assert!(out.starts_with("<ui version=\"4.0\">\n  <class>MyDialog</class>\n"));
    assert!(out.ends_with("  </widget>\n</ui>\n"));
}

#[test]
fn ui_form_without_controls_exact() {
    let out = create_ui_file("Empty", &Vec::new());
    let expected = "<ui version=\"4.0\">\n  <class>Empty</class>\n  <widget class=\"QWidget\" name=\"Empty\">\n    <property name=\"geometry\">\n      <rect>\n        <x>0</x>\n        <y>0</y>\n        <width>400</width>\n        <height>300</height>\n      </rect>\n    </property>\n  </widget>\n</ui>\n";
    assert_eq!(out, expected);
}

#[test]
fn ui_form_skips_non_button_controls() {
    let controls = lines(&[
        "LTEXT \"Label\", IDC_STATIC, 7, 7, 100, 8",
        "CONTROL \"Go\", 7, BUTTON, BS_PUSHBUTTON, 1, 2, 3, 4",
    ]);
    let out = create_ui_file("Dlg", &controls);
    assert!(!out.contains("Label"));
    assert!(out.contains("name=\"button_7\""));
}

#[test]
fn bitmap_shim_exact() {
    let mut list = RcBitmapList::new();
    list.add(RcBitmap {
        id: "IDB_LOGO".to_string(),
        file: "img/logo.bmp".to_string(),
        width: None,
        height: None,
        color_depth: None,
        compression: None,
        palette: None,
        dpi: None,
        color_mode: None,
        compression_level: None,
        author: None,
    });
    let out = list.output();
    let expected = "void qtMfcInitBitmapResources() {\n    qtMfcBitmapResources.clear();\n    // IDB_LOGO BITMAP img/logo.bmp\n    qtMfcBitmapResources.insert(IDB_LOGO, new CBitmap(img/logo.bmp));\n}\n";
    assert_eq!(out, expected);
}

#[test]
fn dialog_shim_dispatch_cases() {
    let mut list = RcDialogExList::new();
    list.add(RcDialogEx {
        id: "IDD_ABOUT".to_string(),
        items: Vec::new(),
        options: Vec::new(),
        numbers: Vec::new(),
        caption: String::new(),
        style: String::new(),
        font: String::new(),
    });
    let out = list.output();
    assert!(out.contains("case IDD_ABOUT:"));
    assert!(out.contains("qtMfcInitDialogResource_IDD_ABOUT(parent);"));
    assert!(out.contains("case 0:"));
    assert!(out.contains("// Allow blank dialogs."));
    assert!(out.contains("default:"));
    assert!(out.contains("qFatal(\"dialog resource not implemented...\");"));
}

#[test]
fn stringtable_shim_has_builtin_strings() {
    let list = RcStringTableList::new();
    let out = list.output();
    assert!(out.contains("qtMfcStringResources.insert(AFX_IDS_ALLFILTER, \"All files|\");"));
    assert!(out.contains("qtMfcStringResources.insert(AFX_IDS_UNTITLED, \"Untitled\");"));
    assert!(out.contains(
        "qtMfcStringResources.insert(AFX_IDP_FAILED_TO_CREATE_DOC, \"Failed to create empty document.\");"
    ));
    assert!(out.starts_with("void qtMfcInitStringResources() {\n"));
    assert!(out.ends_with("}\n"));
}

#[test]
fn full_shim_covers_all_kinds() {
    let input = lines(&[
        "IDB_ONE BITMAP \"one.bmp\"",
        "IDI_TWO ICON \"two.ico\"",
        "STRINGTABLE BEGIN",
        "IDS_HELLO \"Hello\"",
        "END",
        "IDR_TB TOOLBAR \"bar\"",
        "ACCELERATORS BEGIN",
        "VK_F1, ID_HELP",
        "END",
        "MENU BEGIN",
        "MENUITEM \"&File\"",
        "END",
        "IDD_DLG DIALOGEX 0, 0, 10, 10",
        "END",
    ]);
    let (catalog, warnings) = parse_rc_file(&input);
    assert!(warnings.is_empty());
    let out = render_shim(&catalog);
    assert!(out.contains("qtMfcBitmapResources.insert(IDB_ONE, new CBitmap(one.bmp));"));
    assert!(out.contains("qtIconNames.insert(IDI_TWO, two.ico);"));
    assert!(out.contains("    // STRINGTABLE\n    // BEGIN\n    qtMfcStringResources.insert(IDS_HELLO, \"Hello\");\n    // END\n"));
    assert!(out.contains("void qtMfcInitToolBarResource_IDR_TB(UINT dlgID, CToolBar* parent) {"));
    assert!(out.contains("case IDR_TB:"));
    assert!(out.contains("ACCEL ACCEL_[] = {"));
    assert!(out.contains("ACCEL* qtMfcAcceleratorResource(UINT id) {"));
    assert!(out.contains("void qtMfcInitMenuResource_(CMenu* parent) {"));
    assert!(out.contains("action->setShortcut(QKeySequence(action->text().split(\"\\t\").at(1)));"));
    assert!(out.contains("void qtMfcInitDialogResource_IDD_DLG(CDialog* parent) {"));
}

#[test]
fn pipeline_is_idempotent() {
    let input = lines(&[
        "IDB_ONE BITMAP \"one.bmp\"",
        "STRINGTABLE BEGIN",
        "IDS_HELLO \"Hello\"",
        "END",
        "IDD_DLG DIALOGEX 0, 0, 10, 10",
        "CONTROL \"OK\", 101, BUTTON, WS_TABSTOP, 10, 10, 50, 14",
        "END",
    ]);
    let (catalog1, warnings1) = parse_rc_file(&input);
    let (catalog2, warnings2) = parse_rc_file(&input);
    assert_eq!(warnings1, warnings2);
    assert_eq!(render_shim(&catalog1), render_shim(&catalog2));
    let resources = vec![QrcEntry { name: "one".to_string(), path: "one.bmp".to_string() }];
    assert_eq!(create_qrc_file(&resources), create_qrc_file(&resources));
    let controls = lines(&["CONTROL \"OK\", 101, BUTTON, WS_TABSTOP, 10, 10, 50, 14"]);
    assert_eq!(
        create_ui_file("ExampleDialog", &controls),
        create_ui_file("ExampleDialog", &controls)
    );
}
