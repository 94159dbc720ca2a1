//! The resource catalog: typed, ordered containers for each resource kind,
//! built incrementally by the block parser and read by the emitters.

use vstd::prelude::*;

verus! {

/// The views of a sequence of strings, line by line.
pub open spec fn strs_view(v: Seq<String>) -> Seq<Seq<char>> {
    v.map_values(|s: String| s@)
}

/// The view of an optional string.
pub open spec fn opt_str_view(o: Option<String>) -> Option<Seq<char>> {
    match o {
        Some(s) => Some(s@),
        None => None,
    }
}

/// Ghost form of a bitmap entry.
pub struct BitmapModel {
    pub id: Seq<char>,
    pub file: Seq<char>,
    pub width: Option<u32>,
    pub height: Option<u32>,
    pub color_depth: Option<u32>,
    pub compression: Option<Seq<char>>,
    pub palette: Option<Seq<char>>,
    pub dpi: Option<u32>,
    pub color_mode: Option<Seq<char>>,
    pub compression_level: Option<u32>,
    pub author: Option<Seq<char>>,
}

/// A bitmap declaration: identifier, normalized file path, and whatever
/// attributes an extended block declared.
pub struct RcBitmap {
    pub id: String,
    pub file: String,
    pub width: Option<u32>,
    pub height: Option<u32>,
    pub color_depth: Option<u32>,
    pub compression: Option<String>,
    pub palette: Option<String>,
    pub dpi: Option<u32>,
    pub color_mode: Option<String>,
    pub compression_level: Option<u32>,
    pub author: Option<String>,
}

impl View for RcBitmap {
    type V = BitmapModel;

    open spec fn view(&self) -> BitmapModel {
        BitmapModel {
            id: self.id@,
            file: self.file@,
            width: self.width,
            height: self.height,
            color_depth: self.color_depth,
            compression: opt_str_view(self.compression),
            palette: opt_str_view(self.palette),
            dpi: self.dpi,
            color_mode: opt_str_view(self.color_mode),
            compression_level: self.compression_level,
            author: opt_str_view(self.author),
        }
    }
}

/// The ordered list of bitmap entries, in source order.
pub struct RcBitmapList {
    pub bitmaps: Vec<RcBitmap>,
}

impl View for RcBitmapList {
    type V = Seq<BitmapModel>;

    open spec fn view(&self) -> Seq<BitmapModel> {
        self.bitmaps@.map_values(|b: RcBitmap| b@)
    }
}

impl RcBitmapList {
    pub fn new() -> (r: Self)
        ensures
            r@ == Seq::<BitmapModel>::empty(),
    {
        let r = RcBitmapList { bitmaps: Vec::new() };
        proof {
            assert(r@ =~= Seq::<BitmapModel>::empty());
        }
        r
    }

    pub fn add(&mut self, bitmap: RcBitmap)
        ensures
            final(self)@ == old(self)@.push(bitmap@),
    {
        let ghost b = bitmap@;
        self.bitmaps.push(bitmap);
        proof {
            assert(self@ =~= old(self)@.push(b));
        }
    }
}

/// Ghost form of an icon entry.
pub struct IconModel {
    pub id: Seq<char>,
    pub file: Seq<char>,
}

/// An icon declaration: identifier and file path, kept verbatim.
pub struct RcIcon {
    pub id: String,
    pub file: String,
}

impl View for RcIcon {
    type V = IconModel;

    open spec fn view(&self) -> IconModel {
        IconModel { id: self.id@, file: self.file@ }
    }
}

/// The ordered list of icon entries, in source order.
pub struct RcIconList {
    pub icons: Vec<RcIcon>,
}

impl View for RcIconList {
    type V = Seq<IconModel>;

    open spec fn view(&self) -> Seq<IconModel> {
        self.icons@.map_values(|i: RcIcon| i@)
    }
}

impl RcIconList {
    pub fn new() -> (r: Self)
        ensures
            r@ == Seq::<IconModel>::empty(),
    {
        let r = RcIconList { icons: Vec::new() };
        proof {
            assert(r@ =~= Seq::<IconModel>::empty());
        }
        r
    }

    pub fn add(&mut self, icon: RcIcon)
        ensures
            final(self)@ == old(self)@.push(icon@),
    {
        let ghost i = icon@;
        self.icons.push(icon);
        proof {
            assert(self@ =~= old(self)@.push(i));
        }
    }
}

/// Ghost form of a string-table item.
pub struct ItemModel {
    pub id: Seq<char>,
    pub text: Seq<char>,
}

/// One `<id> "<text>"` item of a string table.
pub struct RcStringTableItem {
    pub id: String,
    pub text: String,
}

impl View for RcStringTableItem {
    type V = ItemModel;

    open spec fn view(&self) -> ItemModel {
        ItemModel { id: self.id@, text: self.text@ }
    }
}

/// One `STRINGTABLE … END` block: its items, in source order.
pub struct RcStringTable {
    pub table: Vec<RcStringTableItem>,
}

impl View for RcStringTable {
    type V = Seq<ItemModel>;

    open spec fn view(&self) -> Seq<ItemModel> {
        self.table@.map_values(|i: RcStringTableItem| i@)
    }
}

impl RcStringTable {
    pub fn new(table: Vec<RcStringTableItem>) -> (r: Self)
        ensures
            r@ == table@.map_values(|i: RcStringTableItem| i@),
    {
        RcStringTable { table }
    }
}

/// The ordered list of string tables, in source order.
pub struct RcStringTableList {
    pub string_tables: Vec<RcStringTable>,
}

impl View for RcStringTableList {
    type V = Seq<Seq<ItemModel>>;

    open spec fn view(&self) -> Seq<Seq<ItemModel>> {
        self.string_tables@.map_values(|t: RcStringTable| t@)
    }
}

impl RcStringTableList {
    pub fn new() -> (r: Self)
        ensures
            r@ == Seq::<Seq<ItemModel>>::empty(),
    {
        let r = RcStringTableList { string_tables: Vec::new() };
        proof {
            assert(r@ =~= Seq::<Seq<ItemModel>>::empty());
        }
        r
    }

    pub fn add(&mut self, string_table: RcStringTable)
        ensures
            final(self)@ == old(self)@.push(string_table@),
    {
        let ghost t = string_table@;
        self.string_tables.push(string_table);
        proof {
            assert(self@ =~= old(self)@.push(t));
        }
    }
}

/// Ghost form of a toolbar entry.
pub struct ToolbarModel {
    pub id: Seq<char>,
    pub table: Seq<Seq<char>>,
}

/// A toolbar declaration: identifier and its raw button lines (left empty by
/// the base parser, which does not model buttons).
pub struct RcToolbar {
    pub id: String,
    pub table: Vec<String>,
}

impl View for RcToolbar {
    type V = ToolbarModel;

    open spec fn view(&self) -> ToolbarModel {
        ToolbarModel { id: self.id@, table: strs_view(self.table@) }
    }
}

/// The ordered list of toolbar entries, in source order.
pub struct RcToolbarList {
    pub toolbars: Vec<RcToolbar>,
}

impl View for RcToolbarList {
    type V = Seq<ToolbarModel>;

    open spec fn view(&self) -> Seq<ToolbarModel> {
        self.toolbars@.map_values(|t: RcToolbar| t@)
    }
}

impl RcToolbarList {
    pub fn new() -> (r: Self)
        ensures
            r@ == Seq::<ToolbarModel>::empty(),
    {
        let r = RcToolbarList { toolbars: Vec::new() };
        proof {
            assert(r@ =~= Seq::<ToolbarModel>::empty());
        }
        r
    }

    pub fn add(&mut self, toolbar: RcToolbar)
        ensures
            final(self)@ == old(self)@.push(toolbar@),
    {
        let ghost t = toolbar@;
        self.toolbars.push(toolbar);
        proof {
            assert(self@ =~= old(self)@.push(t));
        }
    }
}

/// Ghost form of an accelerator table.
pub struct AccelModel {
    pub id: Option<Seq<char>>,
    pub table: Seq<Seq<char>>,
}

/// An accelerator table: optional identifier (absent at the base parsing
/// stage) and raw accelerator lines, kept verbatim.
pub struct RcAcceleratorTable {
    pub id: Option<String>,
    pub table: Vec<String>,
}

impl View for RcAcceleratorTable {
    type V = AccelModel;

    open spec fn view(&self) -> AccelModel {
        AccelModel { id: opt_str_view(self.id), table: strs_view(self.table@) }
    }
}

/// The ordered list of accelerator tables, in source order.
pub struct RcAcceleratorTableList {
    pub accelerator_tables: Vec<RcAcceleratorTable>,
}

impl View for RcAcceleratorTableList {
    type V = Seq<AccelModel>;

    open spec fn view(&self) -> Seq<AccelModel> {
        self.accelerator_tables@.map_values(|t: RcAcceleratorTable| t@)
    }
}

impl RcAcceleratorTableList {
    pub fn new() -> (r: Self)
        ensures
            r@ == Seq::<AccelModel>::empty(),
    {
        let r = RcAcceleratorTableList { accelerator_tables: Vec::new() };
        proof {
            assert(r@ =~= Seq::<AccelModel>::empty());
        }
        r
    }

    pub fn add(&mut self, accelerator_table: RcAcceleratorTable)
        ensures
            final(self)@ == old(self)@.push(accelerator_table@),
    {
        let ghost t = accelerator_table@;
        self.accelerator_tables.push(accelerator_table);
        proof {
            assert(self@ =~= old(self)@.push(t));
        }
    }
}

/// Ghost form of a menu.
pub struct MenuModel {
    pub id: Option<Seq<char>>,
    pub table: Seq<Seq<char>>,
}

/// A menu: optional identifier (absent at the base parsing stage) and raw
/// item lines, kept verbatim; nested popups are not modeled.
pub struct RcMenu {
    pub id: Option<String>,
    pub table: Vec<String>,
}

impl View for RcMenu {
    type V = MenuModel;

    open spec fn view(&self) -> MenuModel {
        MenuModel { id: opt_str_view(self.id), table: strs_view(self.table@) }
    }
}

/// The ordered list of menus, in source order.
pub struct RcMenuList {
    pub menus: Vec<RcMenu>,
}

impl View for RcMenuList {
    type V = Seq<MenuModel>;

    open spec fn view(&self) -> Seq<MenuModel> {
        self.menus@.map_values(|m: RcMenu| m@)
    }
}

impl RcMenuList {
    pub fn new() -> (r: Self)
        ensures
            r@ == Seq::<MenuModel>::empty(),
    {
        let r = RcMenuList { menus: Vec::new() };
        proof {
            assert(r@ =~= Seq::<MenuModel>::empty());
        }
        r
    }

    pub fn add(&mut self, menu: RcMenu)
        ensures
            final(self)@ == old(self)@.push(menu@),
    {
        let ghost m = menu@;
        self.menus.push(menu);
        proof {
            assert(self@ =~= old(self)@.push(m));
        }
    }
}

/// Ghost form of a dialog.
pub struct DialogModel {
    pub id: Seq<char>,
    pub items: Seq<Seq<char>>,
    pub options: Seq<Seq<char>>,
    pub numbers: Seq<i32>,
    pub caption: Seq<char>,
    pub style: Seq<char>,
    pub font: Seq<char>,
}

/// A dialog: identifier, raw body lines, and placeholders that only a richer
/// parsing stage would fill.
pub struct RcDialogEx {
    pub id: String,
    pub items: Vec<String>,
    pub options: Vec<String>,
    pub numbers: Vec<i32>,
    pub caption: String,
    pub style: String,
    pub font: String,
}

impl View for RcDialogEx {
    type V = DialogModel;

    open spec fn view(&self) -> DialogModel {
        DialogModel {
            id: self.id@,
            items: strs_view(self.items@),
            options: strs_view(self.options@),
            numbers: self.numbers@,
            caption: self.caption@,
            style: self.style@,
            font: self.font@,
        }
    }
}

/// The ordered list of dialogs, in source order.
pub struct RcDialogExList {
    pub dialogs: Vec<RcDialogEx>,
}

impl View for RcDialogExList {
    type V = Seq<DialogModel>;

    open spec fn view(&self) -> Seq<DialogModel> {
        self.dialogs@.map_values(|d: RcDialogEx| d@)
    }
}

impl RcDialogExList {
    pub fn new() -> (r: Self)
        ensures
            r@ == Seq::<DialogModel>::empty(),
    {
        let r = RcDialogExList { dialogs: Vec::new() };
        proof {
            assert(r@ =~= Seq::<DialogModel>::empty());
        }
        r
    }

    pub fn add(&mut self, dialog: RcDialogEx)
        ensures
            final(self)@ == old(self)@.push(dialog@),
    {
        let ghost d = dialog@;
        self.dialogs.push(dialog);
        proof {
            assert(self@ =~= old(self)@.push(d));
        }
    }
}

} // verus!
