//! The block parser: a single pass over the input lines that dispatches each
//! line to the pattern library and consumes `BEGIN … END` blocks, building
//! the resource catalog and a sequence of warnings.
//!
//! The whole pass is specified by [`spec_parse_at`], a recursive function of
//! the trimmed input lines; [`parse_rc_file`] returns exactly its value.

use vstd::prelude::*;

use crate::pattern::spec_classify_attr;
use crate::pattern::spec_kw_begin;
use crate::pattern::spec_match_decl;
use crate::pattern::spec_match_dialog;
use crate::pattern::spec_match_item;
use crate::pattern::spec_normalize;
use crate::pattern::AttrModel;
use crate::pattern::BitmapAttr;
use crate::pattern::classify_attr;
use crate::pattern::kw_begin_line;
use crate::pattern::match_decl;
use crate::pattern::match_dialog;
use crate::pattern::match_item;
use crate::pattern::normalize_path;
use crate::resource::opt_str_view;
use crate::resource::strs_view;
use crate::resource::AccelModel;
use crate::resource::BitmapModel;
use crate::resource::DialogModel;
use crate::resource::IconModel;
use crate::resource::ItemModel;
use crate::resource::MenuModel;
use crate::resource::RcAcceleratorTable;
use crate::resource::RcAcceleratorTableList;
use crate::resource::RcBitmap;
use crate::resource::RcBitmapList;
use crate::resource::RcDialogEx;
use crate::resource::RcDialogExList;
use crate::resource::RcIcon;
use crate::resource::RcIconList;
use crate::resource::RcMenu;
use crate::resource::RcMenuList;
use crate::resource::RcStringTable;
use crate::resource::RcStringTableItem;
use crate::resource::RcStringTableList;
use crate::resource::RcToolbar;
use crate::resource::RcToolbarList;
use crate::resource::ToolbarModel;
use crate::scan::line_is;
use crate::scan::line_is_token;
use crate::scan::spec_trim;
use crate::scan::trim_line;

verus! {

/// The trimmed views of the input lines.
pub open spec fn trimmed_lines(v: Seq<String>) -> Seq<Seq<char>> {
    v.map_values(|s: String| spec_trim(s@))
}

/// Is the line the block terminator?
pub open spec fn line_is_end(l: Seq<char>) -> bool {
    l == "END"@
}

/// First index at or after `j` holding the terminator line (or the end of
/// input).
pub open spec fn block_end(lines: Seq<Seq<char>>, j: int) -> int
    decreases lines.len() - j,
{
    if j < 0 || j >= lines.len() {
        lines.len() as int
    } else if line_is_end(lines[j]) {
        j
    } else {
        block_end(lines, j + 1)
    }
}

/// The items captured from the body of a `STRINGTABLE` block: every line
/// matching the item pattern, in source order; the others are dropped.
pub open spec fn items_of(body: Seq<Seq<char>>) -> Seq<ItemModel>
    decreases body.len(),
{
    if body.len() == 0 {
        Seq::empty()
    } else {
        let rest = items_of(body.drop_last());
        match spec_match_item(body.last()) {
            Some(c) => rest.push(ItemModel { id: c.0, text: c.1 }),
            None => rest,
        }
    }
}

/// The attributes collected inside an extended bitmap block, together with
/// one warning per unrecognized line. A later attribute line overrides an
/// earlier one of the same kind.
pub struct AttrAcc {
    pub width: Option<u32>,
    pub height: Option<u32>,
    pub color_depth: Option<u32>,
    pub compression: Option<Seq<char>>,
    pub palette: Option<Seq<char>>,
    pub dpi: Option<u32>,
    pub color_mode: Option<Seq<char>>,
    pub compression_level: Option<u32>,
    pub author: Option<Seq<char>>,
    pub warnings: Seq<Seq<char>>,
}

pub open spec fn empty_attrs() -> AttrAcc {
    AttrAcc {
        width: None,
        height: None,
        color_depth: None,
        compression: None,
        palette: None,
        dpi: None,
        color_mode: None,
        compression_level: None,
        author: None,
        warnings: Seq::empty(),
    }
}

/// Apply one classified block line to the collected attributes.
pub open spec fn attr_apply(a: AttrAcc, l: Seq<char>) -> AttrAcc {
    match spec_classify_attr(l) {
        AttrModel::Width(v) => AttrAcc { width: Some(v), ..a },
        AttrModel::Height(v) => AttrAcc { height: Some(v), ..a },
        AttrModel::ColorDepth(v) => AttrAcc { color_depth: Some(v), ..a },
        AttrModel::Compression(t) => AttrAcc { compression: Some(t), ..a },
        AttrModel::Palette(t) => AttrAcc { palette: Some(t), ..a },
        AttrModel::Dpi(v) => AttrAcc { dpi: Some(v), ..a },
        AttrModel::ColorMode(t) => AttrAcc { color_mode: Some(t), ..a },
        AttrModel::CompressionLevel(v) => AttrAcc { compression_level: Some(v), ..a },
        AttrModel::Author(t) => AttrAcc { author: Some(t), ..a },
        AttrModel::Unknown => AttrAcc { warnings: a.warnings.push(l), ..a },
    }
}

/// Fold the attribute classification over a block body.
pub open spec fn attrs_of(body: Seq<Seq<char>>) -> AttrAcc
    decreases body.len(),
{
    if body.len() == 0 {
        empty_attrs()
    } else {
        attr_apply(attrs_of(body.drop_last()), body.last())
    }
}

/// The bitmap entry built from a declaration line and collected attributes.
/// The file path is normalized to forward slashes.
pub open spec fn bitmap_model(id: Seq<char>, path: Seq<char>, a: AttrAcc) -> BitmapModel {
    BitmapModel {
        id: id,
        file: spec_normalize(path),
        width: a.width,
        height: a.height,
        color_depth: a.color_depth,
        compression: a.compression,
        palette: a.palette,
        dpi: a.dpi,
        color_mode: a.color_mode,
        compression_level: a.compression_level,
        author: a.author,
    }
}

/// What kind of line the pattern library sees, tried in a fixed priority
/// order: the first matching pattern wins.
pub enum LineClass {
    Bitmap(Seq<char>, Seq<char>),
    Icon(Seq<char>, Seq<char>),
    StringTableBegin,
    StringTableWord,
    Toolbar(Seq<char>, Seq<char>),
    AcceleratorsBegin,
    AcceleratorsWord,
    MenuBegin,
    MenuWord,
    Dialog(Seq<char>),
    Other,
}

pub open spec fn spec_classify_line(l: Seq<char>) -> LineClass {
    match spec_match_decl(l, "BITMAP"@) {
        Some(c) => LineClass::Bitmap(c.0, c.1),
        None => match spec_match_decl(l, "ICON"@) {
            Some(c) => LineClass::Icon(c.0, c.1),
            None => if spec_kw_begin(l, "STRINGTABLE"@) {
                LineClass::StringTableBegin
            } else if line_is(l, "STRINGTABLE"@) {
                LineClass::StringTableWord
            } else {
                match spec_match_decl(l, "TOOLBAR"@) {
                    Some(c) => LineClass::Toolbar(c.0, c.1),
                    None => if spec_kw_begin(l, "ACCELERATORS"@) {
                        LineClass::AcceleratorsBegin
                    } else if line_is(l, "ACCELERATORS"@) {
                        LineClass::AcceleratorsWord
                    } else if spec_kw_begin(l, "MENU"@) {
                        LineClass::MenuBegin
                    } else if line_is(l, "MENU"@) {
                        LineClass::MenuWord
                    } else {
                        match spec_match_dialog(l) {
                            Some(id) => LineClass::Dialog(id),
                            None => LineClass::Other,
                        }
                    },
                }
            },
        },
    }
}

/// Ghost form of the whole catalog.
pub struct CatalogModel {
    pub bitmaps: Seq<BitmapModel>,
    pub icons: Seq<IconModel>,
    pub string_tables: Seq<Seq<ItemModel>>,
    pub toolbars: Seq<ToolbarModel>,
    pub accelerator_tables: Seq<AccelModel>,
    pub menus: Seq<MenuModel>,
    pub dialogs: Seq<DialogModel>,
}

/// Ghost form of a parse result: the catalog and the warnings, in order.
pub struct ParseModel {
    pub catalog: CatalogModel,
    pub warnings: Seq<Seq<char>>,
}

pub open spec fn empty_catalog() -> CatalogModel {
    CatalogModel {
        bitmaps: Seq::empty(),
        icons: Seq::empty(),
        string_tables: Seq::empty(),
        toolbars: Seq::empty(),
        accelerator_tables: Seq::empty(),
        menus: Seq::empty(),
        dialogs: Seq::empty(),
    }
}

pub open spec fn empty_parse() -> ParseModel {
    ParseModel { catalog: empty_catalog(), warnings: Seq::empty() }
}

/// Concatenate two parse results kind by kind, keeping order.
pub open spec fn combine(a: ParseModel, b: ParseModel) -> ParseModel {
    ParseModel {
        catalog: CatalogModel {
            bitmaps: a.catalog.bitmaps + b.catalog.bitmaps,
            icons: a.catalog.icons + b.catalog.icons,
            string_tables: a.catalog.string_tables + b.catalog.string_tables,
            toolbars: a.catalog.toolbars + b.catalog.toolbars,
            accelerator_tables: a.catalog.accelerator_tables + b.catalog.accelerator_tables,
            menus: a.catalog.menus + b.catalog.menus,
            dialogs: a.catalog.dialogs + b.catalog.dialogs,
        },
        warnings: a.warnings + b.warnings,
    }
}

pub proof fn lemma_combine_empty_left(x: ParseModel)
    ensures
        combine(empty_parse(), x) == x,
{
    assert(Seq::<BitmapModel>::empty() + x.catalog.bitmaps =~= x.catalog.bitmaps);
    assert(Seq::<IconModel>::empty() + x.catalog.icons =~= x.catalog.icons);
    assert(Seq::<Seq<ItemModel>>::empty() + x.catalog.string_tables =~= x.catalog.string_tables);
    assert(Seq::<ToolbarModel>::empty() + x.catalog.toolbars =~= x.catalog.toolbars);
    assert(Seq::<AccelModel>::empty() + x.catalog.accelerator_tables
        =~= x.catalog.accelerator_tables);
    assert(Seq::<MenuModel>::empty() + x.catalog.menus =~= x.catalog.menus);
    assert(Seq::<DialogModel>::empty() + x.catalog.dialogs =~= x.catalog.dialogs);
    assert(Seq::<Seq<char>>::empty() + x.warnings =~= x.warnings);
}

pub proof fn lemma_combine_empty_right(x: ParseModel)
    ensures
        combine(x, empty_parse()) == x,
{
    assert(x.catalog.bitmaps + Seq::<BitmapModel>::empty() =~= x.catalog.bitmaps);
    assert(x.catalog.icons + Seq::<IconModel>::empty() =~= x.catalog.icons);
    assert(x.catalog.string_tables + Seq::<Seq<ItemModel>>::empty() =~= x.catalog.string_tables);
    assert(x.catalog.toolbars + Seq::<ToolbarModel>::empty() =~= x.catalog.toolbars);
    assert(x.catalog.accelerator_tables + Seq::<AccelModel>::empty()
        =~= x.catalog.accelerator_tables);
    assert(x.catalog.menus + Seq::<MenuModel>::empty() =~= x.catalog.menus);
    assert(x.catalog.dialogs + Seq::<DialogModel>::empty() =~= x.catalog.dialogs);
    assert(x.warnings + Seq::<Seq<char>>::empty() =~= x.warnings);
}

pub proof fn lemma_combine_assoc(a: ParseModel, b: ParseModel, c: ParseModel)
    ensures
        combine(combine(a, b), c) == combine(a, combine(b, c)),
{
    assert((a.catalog.bitmaps + b.catalog.bitmaps) + c.catalog.bitmaps =~= a.catalog.bitmaps + (
    b.catalog.bitmaps + c.catalog.bitmaps));
    assert((a.catalog.icons + b.catalog.icons) + c.catalog.icons =~= a.catalog.icons + (
    b.catalog.icons + c.catalog.icons));
    assert((a.catalog.string_tables + b.catalog.string_tables) + c.catalog.string_tables
        =~= a.catalog.string_tables + (b.catalog.string_tables + c.catalog.string_tables));
    assert((a.catalog.toolbars + b.catalog.toolbars) + c.catalog.toolbars =~= a.catalog.toolbars + (
    b.catalog.toolbars + c.catalog.toolbars));
    assert((a.catalog.accelerator_tables + b.catalog.accelerator_tables)
        + c.catalog.accelerator_tables =~= a.catalog.accelerator_tables + (
    b.catalog.accelerator_tables + c.catalog.accelerator_tables));
    assert((a.catalog.menus + b.catalog.menus) + c.catalog.menus =~= a.catalog.menus + (
    b.catalog.menus + c.catalog.menus));
    assert((a.catalog.dialogs + b.catalog.dialogs) + c.catalog.dialogs =~= a.catalog.dialogs + (
    b.catalog.dialogs + c.catalog.dialogs));
    assert((a.warnings + b.warnings) + c.warnings =~= a.warnings + (b.warnings + c.warnings));
}

pub open spec fn single_bitmap(b: BitmapModel, warnings: Seq<Seq<char>>) -> ParseModel {
    ParseModel {
        catalog: CatalogModel { bitmaps: seq![b], ..empty_catalog() },
        warnings: warnings,
    }
}

pub open spec fn single_icon(i: IconModel) -> ParseModel {
    ParseModel { catalog: CatalogModel { icons: seq![i], ..empty_catalog() }, warnings: Seq::empty() }
}

pub open spec fn single_table(t: Seq<ItemModel>) -> ParseModel {
    ParseModel {
        catalog: CatalogModel { string_tables: seq![t], ..empty_catalog() },
        warnings: Seq::empty(),
    }
}

pub open spec fn single_toolbar(t: ToolbarModel) -> ParseModel {
    ParseModel {
        catalog: CatalogModel { toolbars: seq![t], ..empty_catalog() },
        warnings: Seq::empty(),
    }
}

pub open spec fn single_accel(a: AccelModel) -> ParseModel {
    ParseModel {
        catalog: CatalogModel { accelerator_tables: seq![a], ..empty_catalog() },
        warnings: Seq::empty(),
    }
}

pub open spec fn single_menu(m: MenuModel) -> ParseModel {
    ParseModel { catalog: CatalogModel { menus: seq![m], ..empty_catalog() }, warnings: Seq::empty() }
}

pub open spec fn single_dialog(d: DialogModel) -> ParseModel {
    ParseModel {
        catalog: CatalogModel { dialogs: seq![d], ..empty_catalog() },
        warnings: Seq::empty(),
    }
}

/// The dialog entry built from a header line and its raw body.
pub open spec fn dialog_model(id: Seq<char>, body: Seq<Seq<char>>) -> DialogModel {
    DialogModel {
        id: id,
        items: body,
        options: Seq::empty(),
        numbers: Seq::empty(),
        caption: Seq::empty(),
        style: Seq::empty(),
        font: Seq::empty(),
    }
}

/// The index at which parsing resumes after a block whose body starts at
/// `j`: just past the terminator, or the end of input.
pub open spec fn parse_resume(lines: Seq<Seq<char>>, i: int, j: int) -> int {
    vstd::math::max(i + 1, vstd::math::min(block_end(lines, j) + 1, lines.len() as int))
}

/// The parse of the trimmed lines from index `i` on.
pub open spec fn spec_parse_at(lines: Seq<Seq<char>>, i: int) -> ParseModel
    decreases lines.len() - i,
{
    if i < 0 || i >= lines.len() {
        empty_parse()
    } else {
        match spec_classify_line(lines[i]) {
            LineClass::Bitmap(id, path) => {
                if i + 1 < lines.len() && line_is(lines[i + 1], "BEGIN"@) {
                    let e = block_end(lines, i + 2);
                    let a = attrs_of(lines.subrange(i + 2, e));
                    combine(
                        single_bitmap(bitmap_model(id, path, a), a.warnings),
                        spec_parse_at(lines, parse_resume(lines, i, i + 2)),
                    )
                } else {
                    combine(
                        single_bitmap(bitmap_model(id, path, empty_attrs()), Seq::empty()),
                        spec_parse_at(lines, i + 1),
                    )
                }
            },
            LineClass::Icon(id, path) => combine(
                single_icon(IconModel { id: id, file: path }),
                spec_parse_at(lines, i + 1),
            ),
            LineClass::StringTableBegin => {
                let e = block_end(lines, i + 1);
                combine(
                    single_table(items_of(lines.subrange(i + 1, e))),
                    spec_parse_at(lines, parse_resume(lines, i, i + 1)),
                )
            },
            LineClass::StringTableWord => {
                if i + 1 < lines.len() && line_is(lines[i + 1], "BEGIN"@) {
                    let e = block_end(lines, i + 2);
                    combine(
                        single_table(items_of(lines.subrange(i + 2, e))),
                        spec_parse_at(lines, parse_resume(lines, i, i + 2)),
                    )
                } else {
                    spec_parse_at(lines, i + 1)
                }
            },
            LineClass::Toolbar(id, label) => combine(
                single_toolbar(ToolbarModel { id: id, table: Seq::empty() }),
                spec_parse_at(lines, i + 1),
            ),
            LineClass::AcceleratorsBegin => {
                let e = block_end(lines, i + 1);
                combine(
                    single_accel(AccelModel { id: None, table: lines.subrange(i + 1, e) }),
                    spec_parse_at(lines, parse_resume(lines, i, i + 1)),
                )
            },
            LineClass::AcceleratorsWord => {
                if i + 1 < lines.len() && line_is(lines[i + 1], "BEGIN"@) {
                    let e = block_end(lines, i + 2);
                    combine(
                        single_accel(AccelModel { id: None, table: lines.subrange(i + 2, e) }),
                        spec_parse_at(lines, parse_resume(lines, i, i + 2)),
                    )
                } else {
                    spec_parse_at(lines, i + 1)
                }
            },
            LineClass::MenuBegin => {
                let e = block_end(lines, i + 1);
                combine(
                    single_menu(MenuModel { id: None, table: lines.subrange(i + 1, e) }),
                    spec_parse_at(lines, parse_resume(lines, i, i + 1)),
                )
            },
            LineClass::MenuWord => {
                if i + 1 < lines.len() && line_is(lines[i + 1], "BEGIN"@) {
                    let e = block_end(lines, i + 2);
                    combine(
                        single_menu(MenuModel { id: None, table: lines.subrange(i + 2, e) }),
                        spec_parse_at(lines, parse_resume(lines, i, i + 2)),
                    )
                } else {
                    spec_parse_at(lines, i + 1)
                }
            },
            LineClass::Dialog(id) => {
                let e = block_end(lines, i + 1);
                combine(
                    single_dialog(dialog_model(id, lines.subrange(i + 1, e))),
                    spec_parse_at(lines, parse_resume(lines, i, i + 1)),
                )
            },
            LineClass::Other => spec_parse_at(lines, i + 1),
        }
    }
}

/// Stepping the run: consuming one construct moves its single entry from the
/// unparsed suffix into the accumulated prefix.
proof fn lemma_extend_run(
    total: ParseModel,
    cur0: ParseModel,
    single: ParseModel,
    cur1: ParseModel,
    rest0: ParseModel,
    rest1: ParseModel,
)
    requires
        total == combine(cur0, rest0),
        rest0 == combine(single, rest1),
        cur1 == combine(cur0, single),
    ensures
        total == combine(cur1, rest1),
{
    lemma_combine_assoc(cur0, single, rest1);
}

proof fn lemma_push_bitmap(cur: ParseModel, b: BitmapModel, w: Seq<Seq<char>>)
    ensures
        combine(cur, single_bitmap(b, w)) == (ParseModel {
            catalog: CatalogModel { bitmaps: cur.catalog.bitmaps.push(b), ..cur.catalog },
            warnings: cur.warnings + w,
        }),
{
    assert(cur.catalog.bitmaps + seq![b] =~= cur.catalog.bitmaps.push(b));
    assert(cur.catalog.icons + Seq::<IconModel>::empty() =~= cur.catalog.icons);
    assert(cur.catalog.string_tables + Seq::<Seq<ItemModel>>::empty()
        =~= cur.catalog.string_tables);
    assert(cur.catalog.toolbars + Seq::<ToolbarModel>::empty() =~= cur.catalog.toolbars);
    assert(cur.catalog.accelerator_tables + Seq::<AccelModel>::empty()
        =~= cur.catalog.accelerator_tables);
    assert(cur.catalog.menus + Seq::<MenuModel>::empty() =~= cur.catalog.menus);
    assert(cur.catalog.dialogs + Seq::<DialogModel>::empty() =~= cur.catalog.dialogs);
}

proof fn lemma_push_icon(cur: ParseModel, ic: IconModel)
    ensures
        combine(cur, single_icon(ic)) == (ParseModel {
            catalog: CatalogModel { icons: cur.catalog.icons.push(ic), ..cur.catalog },
            warnings: cur.warnings,
        }),
{
    assert(cur.catalog.bitmaps + Seq::<BitmapModel>::empty() =~= cur.catalog.bitmaps);
    assert(cur.catalog.icons + seq![ic] =~= cur.catalog.icons.push(ic));
    assert(cur.catalog.string_tables + Seq::<Seq<ItemModel>>::empty()
        =~= cur.catalog.string_tables);
    assert(cur.catalog.toolbars + Seq::<ToolbarModel>::empty() =~= cur.catalog.toolbars);
    assert(cur.catalog.accelerator_tables + Seq::<AccelModel>::empty()
        =~= cur.catalog.accelerator_tables);
    assert(cur.catalog.menus + Seq::<MenuModel>::empty() =~= cur.catalog.menus);
    assert(cur.catalog.dialogs + Seq::<DialogModel>::empty() =~= cur.catalog.dialogs);
    assert(cur.warnings + Seq::<Seq<char>>::empty() =~= cur.warnings);
}

proof fn lemma_push_table(cur: ParseModel, t: Seq<ItemModel>)
    ensures
        combine(cur, single_table(t)) == (ParseModel {
            catalog: CatalogModel {
                string_tables: cur.catalog.string_tables.push(t),
                ..cur.catalog
            },
            warnings: cur.warnings,
        }),
{
    assert(cur.catalog.bitmaps + Seq::<BitmapModel>::empty() =~= cur.catalog.bitmaps);
    assert(cur.catalog.icons + Seq::<IconModel>::empty() =~= cur.catalog.icons);
    assert(cur.catalog.string_tables + seq![t] =~= cur.catalog.string_tables.push(t));
    assert(cur.catalog.toolbars + Seq::<ToolbarModel>::empty() =~= cur.catalog.toolbars);
    assert(cur.catalog.accelerator_tables + Seq::<AccelModel>::empty()
        =~= cur.catalog.accelerator_tables);
    assert(cur.catalog.menus + Seq::<MenuModel>::empty() =~= cur.catalog.menus);
    assert(cur.catalog.dialogs + Seq::<DialogModel>::empty() =~= cur.catalog.dialogs);
    assert(cur.warnings + Seq::<Seq<char>>::empty() =~= cur.warnings);
}

proof fn lemma_push_toolbar(cur: ParseModel, t: ToolbarModel)
    ensures
        combine(cur, single_toolbar(t)) == (ParseModel {
            catalog: CatalogModel { toolbars: cur.catalog.toolbars.push(t), ..cur.catalog },
            warnings: cur.warnings,
        }),
{
    assert(cur.catalog.bitmaps + Seq::<BitmapModel>::empty() =~= cur.catalog.bitmaps);
    assert(cur.catalog.icons + Seq::<IconModel>::empty() =~= cur.catalog.icons);
    assert(cur.catalog.string_tables + Seq::<Seq<ItemModel>>::empty()
        =~= cur.catalog.string_tables);
    assert(cur.catalog.toolbars + seq![t] =~= cur.catalog.toolbars.push(t));
    assert(cur.catalog.accelerator_tables + Seq::<AccelModel>::empty()
        =~= cur.catalog.accelerator_tables);
    assert(cur.catalog.menus + Seq::<MenuModel>::empty() =~= cur.catalog.menus);
    assert(cur.catalog.dialogs + Seq::<DialogModel>::empty() =~= cur.catalog.dialogs);
    assert(cur.warnings + Seq::<Seq<char>>::empty() =~= cur.warnings);
}

proof fn lemma_push_accel(cur: ParseModel, a: AccelModel)
    ensures
        combine(cur, single_accel(a)) == (ParseModel {
            catalog: CatalogModel {
                accelerator_tables: cur.catalog.accelerator_tables.push(a),
                ..cur.catalog
            },
            warnings: cur.warnings,
        }),
{
    assert(cur.catalog.bitmaps + Seq::<BitmapModel>::empty() =~= cur.catalog.bitmaps);
    assert(cur.catalog.icons + Seq::<IconModel>::empty() =~= cur.catalog.icons);
    assert(cur.catalog.string_tables + Seq::<Seq<ItemModel>>::empty()
        =~= cur.catalog.string_tables);
    assert(cur.catalog.toolbars + Seq::<ToolbarModel>::empty() =~= cur.catalog.toolbars);
    assert(cur.catalog.accelerator_tables + seq![a] =~= cur.catalog.accelerator_tables.push(a));
    assert(cur.catalog.menus + Seq::<MenuModel>::empty() =~= cur.catalog.menus);
    assert(cur.catalog.dialogs + Seq::<DialogModel>::empty() =~= cur.catalog.dialogs);
    assert(cur.warnings + Seq::<Seq<char>>::empty() =~= cur.warnings);
}

proof fn lemma_push_menu(cur: ParseModel, m: MenuModel)
    ensures
        combine(cur, single_menu(m)) == (ParseModel {
            catalog: CatalogModel { menus: cur.catalog.menus.push(m), ..cur.catalog },
            warnings: cur.warnings,
        }),
{
    assert(cur.catalog.bitmaps + Seq::<BitmapModel>::empty() =~= cur.catalog.bitmaps);
    assert(cur.catalog.icons + Seq::<IconModel>::empty() =~= cur.catalog.icons);
    assert(cur.catalog.string_tables + Seq::<Seq<ItemModel>>::empty()
        =~= cur.catalog.string_tables);
    assert(cur.catalog.toolbars + Seq::<ToolbarModel>::empty() =~= cur.catalog.toolbars);
    assert(cur.catalog.accelerator_tables + Seq::<AccelModel>::empty()
        =~= cur.catalog.accelerator_tables);
    assert(cur.catalog.menus + seq![m] =~= cur.catalog.menus.push(m));
    assert(cur.catalog.dialogs + Seq::<DialogModel>::empty() =~= cur.catalog.dialogs);
    assert(cur.warnings + Seq::<Seq<char>>::empty() =~= cur.warnings);
}

proof fn lemma_push_dialog(cur: ParseModel, d: DialogModel)
    ensures
        combine(cur, single_dialog(d)) == (ParseModel {
            catalog: CatalogModel { dialogs: cur.catalog.dialogs.push(d), ..cur.catalog },
            warnings: cur.warnings,
        }),
{
    assert(cur.catalog.bitmaps + Seq::<BitmapModel>::empty() =~= cur.catalog.bitmaps);
    assert(cur.catalog.icons + Seq::<IconModel>::empty() =~= cur.catalog.icons);
    assert(cur.catalog.string_tables + Seq::<Seq<ItemModel>>::empty()
        =~= cur.catalog.string_tables);
    assert(cur.catalog.toolbars + Seq::<ToolbarModel>::empty() =~= cur.catalog.toolbars);
    assert(cur.catalog.accelerator_tables + Seq::<AccelModel>::empty()
        =~= cur.catalog.accelerator_tables);
    assert(cur.catalog.menus + Seq::<MenuModel>::empty() =~= cur.catalog.menus);
    assert(cur.catalog.dialogs + seq![d] =~= cur.catalog.dialogs.push(d));
    assert(cur.warnings + Seq::<Seq<char>>::empty() =~= cur.warnings);
}

/// Is the trimmed form of line `j` the block terminator?
fn is_end_line(lines: &Vec<String>, j: usize) -> (r: bool)
    requires
        j < lines@.len(),
    ensures
        r == line_is_end(trimmed_lines(lines@)[j as int]),
{
    let t = trim_line(lines[j].as_str());
    line_is_token(t.as_str(), "END")
}

/// Scan forward from `j` to the line just before the block terminator, or to
/// the end of input.
fn scan_block_end(lines: &Vec<String>, j: usize) -> (e: usize)
    requires
        j <= lines@.len(),
    ensures
        e == block_end(trimmed_lines(lines@), j as int),
        j <= e <= lines@.len(),
{
    let ghost tl = trimmed_lines(lines@);
    let n = lines.len();
    let mut jj = j;
    while jj < n && !is_end_line(lines, jj)
        invariant
            j <= jj <= n,
            n == lines@.len(),
            tl == trimmed_lines(lines@),
            tl.len() == lines@.len(),
            block_end(tl, j as int) == block_end(tl, jj as int),
        decreases n - jj,
    {
        assert(block_end(tl, jj as int) == block_end(tl, jj + 1));
        jj = jj + 1;
    }
    jj
}

/// Collect the trimmed lines of a raw block body, verbatim.
fn collect_raw(lines: &Vec<String>, j: usize, e: usize) -> (r: Vec<String>)
    requires
        j <= e <= lines@.len(),
    ensures
        strs_view(r@) == trimmed_lines(lines@).subrange(j as int, e as int),
{
    let ghost tl = trimmed_lines(lines@);
    let mut out: Vec<String> = Vec::new();
    proof {
        assert(strs_view(out@) =~= tl.subrange(j as int, j as int));
    }
    let mut k = j;
    while k < e
        invariant
            j <= k <= e,
            e <= lines@.len(),
            tl == trimmed_lines(lines@),
            tl.len() == lines@.len(),
            strs_view(out@) == tl.subrange(j as int, k as int),
        decreases e - k,
    {
        let t = trim_line(lines[k].as_str());
        proof {
            assert(tl[k as int] == spec_trim(lines@[k as int]@));
        }
        let ghost oldout = out@;
        out.push(t);
        proof {
            assert(strs_view(oldout) == tl.subrange(j as int, k as int));
            assert(tl.subrange(j as int, k as int).len() == k - j);
            assert(strs_view(oldout).len() == oldout.len());
            assert(oldout.len() == k - j);
            assert forall|x: int| 0 <= x < out@.len() implies strs_view(out@)[x] == tl.subrange(
                j as int,
                k + 1,
            )[x] by {
                if x < oldout.len() {
                    assert(strs_view(oldout)[x] == tl.subrange(j as int, k as int)[x]);
                }
            }
            assert(strs_view(out@) =~= tl.subrange(j as int, k + 1));
        }
        k = k + 1;
    }
    out
}

/// Collect the string-table items of a block body: lines matching the item
/// pattern, in source order.
fn collect_items(lines: &Vec<String>, j: usize, e: usize) -> (r: Vec<RcStringTableItem>)
    requires
        j <= e <= lines@.len(),
    ensures
        r@.map_values(|it: RcStringTableItem| it@) == items_of(
            trimmed_lines(lines@).subrange(j as int, e as int),
        ),
{
    let ghost tl = trimmed_lines(lines@);
    let mut out: Vec<RcStringTableItem> = Vec::new();
    proof {
        assert(tl.subrange(j as int, j as int) =~= Seq::<Seq<char>>::empty());
        assert(out@.map_values(|it: RcStringTableItem| it@) =~= items_of(
            tl.subrange(j as int, j as int),
        ));
    }
    let mut k = j;
    while k < e
        invariant
            j <= k <= e,
            e <= lines@.len(),
            tl == trimmed_lines(lines@),
            tl.len() == lines@.len(),
            out@.map_values(|it: RcStringTableItem| it@) == items_of(
                tl.subrange(j as int, k as int),
            ),
        decreases e - k,
    {
        let t = trim_line(lines[k].as_str());
        proof {
            assert(tl[k as int] == spec_trim(lines@[k as int]@));
            assert(tl.subrange(j as int, k + 1).drop_last() =~= tl.subrange(j as int, k as int));
            assert(tl.subrange(j as int, k + 1).last() == tl[k as int]);
        }
        if let Some((id, text)) = match_item(t.as_str()) {
            out.push(RcStringTableItem { id, text });
        }
        proof {
            assert(out@.map_values(|it: RcStringTableItem| it@) =~= items_of(
                tl.subrange(j as int, k + 1),
            ));
        }
        k = k + 1;
    }
    out
}

/// The attributes collected from an extended bitmap block body, with one
/// warning per unrecognized line.
pub struct AttrSet {
    pub width: Option<u32>,
    pub height: Option<u32>,
    pub color_depth: Option<u32>,
    pub compression: Option<String>,
    pub palette: Option<String>,
    pub dpi: Option<u32>,
    pub color_mode: Option<String>,
    pub compression_level: Option<u32>,
    pub author: Option<String>,
    pub warnings: Vec<String>,
}

impl View for AttrSet {
    type V = AttrAcc;

    open spec fn view(&self) -> AttrAcc {
        AttrAcc {
            width: self.width,
            height: self.height,
            color_depth: self.color_depth,
            compression: opt_str_view(self.compression),
            palette: opt_str_view(self.palette),
            dpi: self.dpi,
            color_mode: opt_str_view(self.color_mode),
            compression_level: self.compression_level,
            author: opt_str_view(self.author),
            warnings: strs_view(self.warnings@),
        }
    }
}

/// Classify every line of an extended bitmap block body.
fn collect_attrs(lines: &Vec<String>, j: usize, e: usize) -> (r: AttrSet)
    requires
        j <= e <= lines@.len(),
    ensures
        r@ == attrs_of(trimmed_lines(lines@).subrange(j as int, e as int)),
{
    let ghost tl = trimmed_lines(lines@);
    let mut acc = AttrSet {
        width: None,
        height: None,
        color_depth: None,
        compression: None,
        palette: None,
        dpi: None,
        color_mode: None,
        compression_level: None,
        author: None,
        warnings: Vec::new(),
    };
    proof {
        assert(strs_view(acc.warnings@) =~= Seq::<Seq<char>>::empty());
        assert(tl.subrange(j as int, j as int) =~= Seq::<Seq<char>>::empty());
    }
    let mut k = j;
    while k < e
        invariant
            j <= k <= e,
            e <= lines@.len(),
            tl == trimmed_lines(lines@),
            tl.len() == lines@.len(),
            acc@ == attrs_of(tl.subrange(j as int, k as int)),
        decreases e - k,
    {
        let t = trim_line(lines[k].as_str());
        proof {
            assert(tl[k as int] == spec_trim(lines@[k as int]@));
            assert(tl.subrange(j as int, k + 1).drop_last() =~= tl.subrange(j as int, k as int));
            assert(tl.subrange(j as int, k + 1).last() == tl[k as int]);
        }
        let cls = classify_attr(t.as_str());
        let ghost oldw = acc.warnings@;
        match cls {
            BitmapAttr::Width(v) => {
                acc.width = Some(v);
            },
            BitmapAttr::Height(v) => {
                acc.height = Some(v);
            },
            BitmapAttr::ColorDepth(v) => {
                acc.color_depth = Some(v);
            },
            BitmapAttr::Compression(tx) => {
                acc.compression = Some(tx);
            },
            BitmapAttr::Palette(tx) => {
                acc.palette = Some(tx);
            },
            BitmapAttr::Dpi(v) => {
                acc.dpi = Some(v);
            },
            BitmapAttr::ColorMode(tx) => {
                acc.color_mode = Some(tx);
            },
            BitmapAttr::CompressionLevel(v) => {
                acc.compression_level = Some(v);
            },
            BitmapAttr::Author(tx) => {
                acc.author = Some(tx);
            },
            BitmapAttr::Unknown => {
                acc.warnings.push(t);
                proof {
                    assert(strs_view(acc.warnings@) =~= strs_view(oldw).push(tl[k as int]));
                }
            },
        }
        assert(acc@ == attrs_of(tl.subrange(j as int, k + 1)));
        k = k + 1;
    }
    acc
}

/// The resource catalog: one ordered list per resource kind, the single
/// hand-off point between the parser and the emitters.
pub struct RcCatalog {
    pub bitmaps: RcBitmapList,
    pub icons: RcIconList,
    pub string_tables: RcStringTableList,
    pub toolbars: RcToolbarList,
    pub accelerator_tables: RcAcceleratorTableList,
    pub menus: RcMenuList,
    pub dialogs: RcDialogExList,
}

impl View for RcCatalog {
    type V = CatalogModel;

    open spec fn view(&self) -> CatalogModel {
        CatalogModel {
            bitmaps: self.bitmaps@,
            icons: self.icons@,
            string_tables: self.string_tables@,
            toolbars: self.toolbars@,
            accelerator_tables: self.accelerator_tables@,
            menus: self.menus@,
            dialogs: self.dialogs@,
        }
    }
}

/// Parse the lines of a resource script into the resource catalog, together
/// with one warning per unrecognized line inside an extended bitmap block.
///
/// The result is exactly [`spec_parse_at`] applied to the trimmed lines:
/// parsing is total, and malformed content is never an error.
pub fn parse_rc_file(lines: &Vec<String>) -> (r: (RcCatalog, Vec<String>))
    ensures
        r.0@ == spec_parse_at(trimmed_lines(lines@), 0).catalog,
        strs_view(r.1@) == spec_parse_at(trimmed_lines(lines@), 0).warnings,
{
    let ghost tl = trimmed_lines(lines@);
    let n = lines.len();
    let mut bitmaps = RcBitmapList::new();
    let mut icons = RcIconList::new();
    let mut string_tables = RcStringTableList::new();
    let mut toolbars = RcToolbarList::new();
    let mut accelerator_tables = RcAcceleratorTableList::new();
    let mut menus = RcMenuList::new();
    let mut dialogs = RcDialogExList::new();
    let mut warnings: Vec<String> = Vec::new();
    proof {
        assert(strs_view(warnings@) =~= Seq::<Seq<char>>::empty());
        lemma_combine_empty_left(spec_parse_at(tl, 0));
    }
    let mut i: usize = 0;
    while i < n
        invariant
            0 <= i <= n,
            n == lines@.len(),
            tl == trimmed_lines(lines@),
            tl.len() == lines@.len(),
            spec_parse_at(tl, 0) == combine(
                ParseModel {
                    catalog: CatalogModel {
                        bitmaps: bitmaps@,
                        icons: icons@,
                        string_tables: string_tables@,
                        toolbars: toolbars@,
                        accelerator_tables: accelerator_tables@,
                        menus: menus@,
                        dialogs: dialogs@,
                    },
                    warnings: strs_view(warnings@),
                },
                spec_parse_at(tl, i as int),
            ),
        decreases n - i,
    {
        let ghost cur0 = ParseModel {
            catalog: CatalogModel {
                bitmaps: bitmaps@,
                icons: icons@,
                string_tables: string_tables@,
                toolbars: toolbars@,
                accelerator_tables: accelerator_tables@,
                menus: menus@,
                dialogs: dialogs@,
            },
            warnings: strs_view(warnings@),
        };
        let ghost total = spec_parse_at(tl, 0);
        let ghost rest0 = spec_parse_at(tl, i as int);
        let line = trim_line(lines[i].as_str());
        proof {
            assert(tl[i as int] == spec_trim(lines@[i as int]@));
            assert(line@ == tl[i as int]);
        }
        if let Some((id, path)) = match_decl(line.as_str(), "BITMAP") {
            let mut has_begin = false;
            if i + 1 < n {
                let nxt = trim_line(lines[i + 1].as_str());
                proof {
                    assert(tl[i as int + 1] == spec_trim(lines@[i as int + 1]@));
                }
                has_begin = line_is_token(nxt.as_str(), "BEGIN");
            }
            if has_begin {
                let e = scan_block_end(lines, i + 2);
                let attrs = collect_attrs(lines, i + 2, e);
                let ghost am = attrs_of(tl.subrange(i as int + 2, e as int));
                let ghost bm = bitmap_model(id@, path@, am);
                let ghost single = single_bitmap(bm, am.warnings);
                let file = normalize_path(path.as_str());
                let AttrSet {
                    width,
                    height,
                    color_depth,
                    compression,
                    palette,
                    dpi,
                    color_mode,
                    compression_level,
                    author,
                    warnings: mut aw,
                } = attrs;
                let b = RcBitmap {
                    id,
                    file,
                    width,
                    height,
                    color_depth,
                    compression,
                    palette,
                    dpi,
                    color_mode,
                    compression_level,
                    author,
                };
                proof {
                    assert(b@ == bm);
                    assert(strs_view(aw@) == am.warnings);
                }
                bitmaps.add(b);
                let ghost oldw = warnings@;
                warnings.append(&mut aw);
                let inew = if e < n {
                    e + 1
                } else {
                    n
                };
                proof {
                    assert(strs_view(warnings@) =~= strs_view(oldw) + am.warnings);
                    assert(inew as int == parse_resume(tl, i as int, i as int + 2));
                    assert(spec_parse_at(tl, i as int) == combine(
                        single,
                        spec_parse_at(tl, inew as int),
                    ));
                    lemma_push_bitmap(cur0, bm, am.warnings);
                    lemma_extend_run(
                        total,
                        cur0,
                        single,
                        combine(cur0, single),
                        rest0,
                        spec_parse_at(tl, inew as int),
                    );
                }
                i = inew;
            } else {
                let file = normalize_path(path.as_str());
                let ghost bm = bitmap_model(id@, path@, empty_attrs());
                let ghost single = single_bitmap(bm, Seq::empty());
                let b = RcBitmap {
                    id,
                    file,
                    width: None,
                    height: None,
                    color_depth: None,
                    compression: None,
                    palette: None,
                    dpi: None,
                    color_mode: None,
                    compression_level: None,
                    author: None,
                };
                proof {
                    assert(b@ == bm);
                }
                bitmaps.add(b);
                proof {
                    assert(spec_parse_at(tl, i as int) == combine(
                        single,
                        spec_parse_at(tl, i as int + 1),
                    ));
                    lemma_push_bitmap(cur0, bm, Seq::empty());
                    assert(cur0.warnings + Seq::<Seq<char>>::empty() =~= cur0.warnings);
                    lemma_extend_run(
                        total,
                        cur0,
                        single,
                        combine(cur0, single),
                        rest0,
                        spec_parse_at(tl, i as int + 1),
                    );
                }
                i = i + 1;
            }
        } else if let Some((id, path)) = match_decl(line.as_str(), "ICON") {
            let ghost im = IconModel { id: id@, file: path@ };
            let ghost single = single_icon(im);
            icons.add(RcIcon { id, file: path });
            proof {
                assert(spec_parse_at(tl, i as int) == combine(
                    single,
                    spec_parse_at(tl, i as int + 1),
                ));
                lemma_push_icon(cur0, im);
                lemma_extend_run(
                    total,
                    cur0,
                    single,
                    combine(cur0, single),
                    rest0,
                    spec_parse_at(tl, i as int + 1),
                );
            }
            i = i + 1;
        } else if kw_begin_line(line.as_str(), "STRINGTABLE") {
            let e = scan_block_end(lines, i + 1);
            let items = collect_items(lines, i + 1, e);
            let ghost tm = items_of(tl.subrange(i as int + 1, e as int));
            let ghost single = single_table(tm);
            let st = RcStringTable::new(items);
            proof {
                assert(st@ == tm);
            }
            string_tables.add(st);
            let inew = if e < n {
                e + 1
            } else {
                n
            };
            proof {
                assert(inew as int == parse_resume(tl, i as int, i as int + 1));
                assert(spec_parse_at(tl, i as int) == combine(
                    single,
                    spec_parse_at(tl, inew as int),
                ));
                lemma_push_table(cur0, tm);
                lemma_extend_run(
                    total,
                    cur0,
                    single,
                    combine(cur0, single),
                    rest0,
                    spec_parse_at(tl, inew as int),
                );
            }
            i = inew;
        } else if line_is_token(line.as_str(), "STRINGTABLE") {
            let mut has_begin = false;
            if i + 1 < n {
                let nxt = trim_line(lines[i + 1].as_str());
                proof {
                    assert(tl[i as int + 1] == spec_trim(lines@[i as int + 1]@));
                }
                has_begin = line_is_token(nxt.as_str(), "BEGIN");
            }
            if has_begin {
                let e = scan_block_end(lines, i + 2);
                let items = collect_items(lines, i + 2, e);
                let ghost tm = items_of(tl.subrange(i as int + 2, e as int));
                let ghost single = single_table(tm);
                let st = RcStringTable::new(items);
                proof {
                    assert(st@ == tm);
                }
                string_tables.add(st);
                let inew = if e < n {
                    e + 1
                } else {
                    n
                };
                proof {
                    assert(inew as int == parse_resume(tl, i as int, i as int + 2));
                    assert(spec_parse_at(tl, i as int) == combine(
                        single,
                        spec_parse_at(tl, inew as int),
                    ));
                    lemma_push_table(cur0, tm);
                    lemma_extend_run(
                        total,
                        cur0,
                        single,
                        combine(cur0, single),
                        rest0,
                        spec_parse_at(tl, inew as int),
                    );
                }
                i = inew;
            } else {
                proof {
                    assert(spec_parse_at(tl, i as int) == spec_parse_at(tl, i as int + 1));
                }
                i = i + 1;
            }
        } else if let Some((id, _label)) = match_decl(line.as_str(), "TOOLBAR") {
            let ghost tm = ToolbarModel { id: id@, table: Seq::empty() };
            let ghost single = single_toolbar(tm);
            let t = RcToolbar { id, table: Vec::new() };
            proof {
                assert(strs_view(t.table@) =~= Seq::<Seq<char>>::empty());
                assert(t@ == tm);
            }
            toolbars.add(t);
            proof {
                assert(spec_parse_at(tl, i as int) == combine(
                    single,
                    spec_parse_at(tl, i as int + 1),
                ));
                lemma_push_toolbar(cur0, tm);
                lemma_extend_run(
                    total,
                    cur0,
                    single,
                    combine(cur0, single),
                    rest0,
                    spec_parse_at(tl, i as int + 1),
                );
            }
            i = i + 1;
        } else if kw_begin_line(line.as_str(), "ACCELERATORS") {
            let e = scan_block_end(lines, i + 1);
            let body = collect_raw(lines, i + 1, e);
            let ghost am = AccelModel { id: None, table: tl.subrange(i as int + 1, e as int) };
            let ghost single = single_accel(am);
            let t = RcAcceleratorTable { id: None, table: body };
            proof {
                assert(t@ == am);
            }
            accelerator_tables.add(t);
            let inew = if e < n {
                e + 1
            } else {
                n
            };
            proof {
                assert(inew as int == parse_resume(tl, i as int, i as int + 1));
                assert(spec_parse_at(tl, i as int) == combine(
                    single,
                    spec_parse_at(tl, inew as int),
                ));
                lemma_push_accel(cur0, am);
                lemma_extend_run(
                    total,
                    cur0,
                    single,
                    combine(cur0, single),
                    rest0,
                    spec_parse_at(tl, inew as int),
                );
            }
            i = inew;
        } else if line_is_token(line.as_str(), "ACCELERATORS") {
            let mut has_begin = false;
            if i + 1 < n {
                let nxt = trim_line(lines[i + 1].as_str());
                proof {
                    assert(tl[i as int + 1] == spec_trim(lines@[i as int + 1]@));
                }
                has_begin = line_is_token(nxt.as_str(), "BEGIN");
            }
            if has_begin {
                let e = scan_block_end(lines, i + 2);
                let body = collect_raw(lines, i + 2, e);
                let ghost am = AccelModel { id: None, table: tl.subrange(i as int + 2, e as int) };
                let ghost single = single_accel(am);
                let t = RcAcceleratorTable { id: None, table: body };
                proof {
                    assert(t@ == am);
                }
                accelerator_tables.add(t);
                let inew = if e < n {
                    e + 1
                } else {
                    n
                };
                proof {
                    assert(inew as int == parse_resume(tl, i as int, i as int + 2));
                    assert(spec_parse_at(tl, i as int) == combine(
                        single,
                        spec_parse_at(tl, inew as int),
                    ));
                    lemma_push_accel(cur0, am);
                    lemma_extend_run(
                        total,
                        cur0,
                        single,
                        combine(cur0, single),
                        rest0,
                        spec_parse_at(tl, inew as int),
                    );
                }
                i = inew;
            } else {
                proof {
                    assert(spec_parse_at(tl, i as int) == spec_parse_at(tl, i as int + 1));
                }
                i = i + 1;
            }
        } else if kw_begin_line(line.as_str(), "MENU") {
            let e = scan_block_end(lines, i + 1);
            let body = collect_raw(lines, i + 1, e);
            let ghost mm = MenuModel { id: None, table: tl.subrange(i as int + 1, e as int) };
            let ghost single = single_menu(mm);
            let m = RcMenu { id: None, table: body };
            proof {
                assert(m@ == mm);
            }
            menus.add(m);
            let inew = if e < n {
                e + 1
            } else {
                n
            };
            proof {
                assert(inew as int == parse_resume(tl, i as int, i as int + 1));
                assert(spec_parse_at(tl, i as int) == combine(
                    single,
                    spec_parse_at(tl, inew as int),
                ));
                lemma_push_menu(cur0, mm);
                lemma_extend_run(
                    total,
                    cur0,
                    single,
                    combine(cur0, single),
                    rest0,
                    spec_parse_at(tl, inew as int),
                );
            }
            i = inew;
        } else if line_is_token(line.as_str(), "MENU") {
            let mut has_begin = false;
            if i + 1 < n {
                let nxt = trim_line(lines[i + 1].as_str());
                proof {
                    assert(tl[i as int + 1] == spec_trim(lines@[i as int + 1]@));
                }
                has_begin = line_is_token(nxt.as_str(), "BEGIN");
            }
            if has_begin {
                let e = scan_block_end(lines, i + 2);
                let body = collect_raw(lines, i + 2, e);
                let ghost mm = MenuModel { id: None, table: tl.subrange(i as int + 2, e as int) };
                let ghost single = single_menu(mm);
                let m = RcMenu { id: None, table: body };
                proof {
                    assert(m@ == mm);
                }
                menus.add(m);
                let inew = if e < n {
                    e + 1
                } else {
                    n
                };
                proof {
                    assert(inew as int == parse_resume(tl, i as int, i as int + 2));
                    assert(spec_parse_at(tl, i as int) == combine(
                        single,
                        spec_parse_at(tl, inew as int),
                    ));
                    lemma_push_menu(cur0, mm);
                    lemma_extend_run(
                        total,
                        cur0,
                        single,
                        combine(cur0, single),
                        rest0,
                        spec_parse_at(tl, inew as int),
                    );
                }
                i = inew;
            } else {
                proof {
                    assert(spec_parse_at(tl, i as int) == spec_parse_at(tl, i as int + 1));
                }
                i = i + 1;
            }
        } else if let Some(id) = match_dialog(line.as_str()) {
            let e = scan_block_end(lines, i + 1);
            let body = collect_raw(lines, i + 1, e);
            let ghost dm = dialog_model(id@, tl.subrange(i as int + 1, e as int));
            let ghost single = single_dialog(dm);
            let d = RcDialogEx {
                id,
                items: body,
                options: Vec::new(),
                numbers: Vec::new(),
                caption: String::new(),
                style: String::new(),
                font: String::new(),
            };
            proof {
                assert(strs_view(d.options@) =~= Seq::<Seq<char>>::empty());
                assert(d@ == dm);
            }
            dialogs.add(d);
            let inew = if e < n {
                e + 1
            } else {
                n
            };
            proof {
                assert(inew as int == parse_resume(tl, i as int, i as int + 1));
                assert(spec_parse_at(tl, i as int) == combine(
                    single,
                    spec_parse_at(tl, inew as int),
                ));
                lemma_push_dialog(cur0, dm);
                lemma_extend_run(
                    total,
                    cur0,
                    single,
                    combine(cur0, single),
                    rest0,
                    spec_parse_at(tl, inew as int),
                );
            }
            i = inew;
        } else {
            proof {
                assert(spec_parse_at(tl, i as int) == spec_parse_at(tl, i as int + 1));
            }
            i = i + 1;
        }
    }
    proof {
        lemma_combine_empty_right(
            ParseModel {
                catalog: CatalogModel {
                    bitmaps: bitmaps@,
                    icons: icons@,
                    string_tables: string_tables@,
                    toolbars: toolbars@,
                    accelerator_tables: accelerator_tables@,
                    menus: menus@,
                    dialogs: dialogs@,
                },
                warnings: strs_view(warnings@),
            },
        );
    }
    let catalog = RcCatalog {
        bitmaps,
        icons,
        string_tables,
        toolbars,
        accelerator_tables,
        menus,
        dialogs,
    };
    (catalog, warnings)
}


/// The captures of a string-table item line, as an item.
pub open spec fn item_of_line(l: Seq<char>) -> ItemModel {
    match spec_match_item(l) {
        Some(c) => ItemModel { id: c.0, text: c.1 },
        None => ItemModel { id: Seq::empty(), text: Seq::empty() },
    }
}

/// For every well-formed bitmap declaration line, the parsed entry's
/// identifier is exactly the first capture of the pattern, and its file path
/// is the normalized second capture; on paths without backslashes
/// normalization changes nothing (see `lemma_normalize_identity`).
pub proof fn lemma_bitmap_line_parsed(
    lines: Seq<Seq<char>>,
    i: int,
    id: Seq<char>,
    path: Seq<char>,
)
    requires
        0 <= i < lines.len(),
        spec_match_decl(lines[i], "BITMAP"@) == Some((id, path)),
    ensures
        spec_parse_at(lines, i).catalog.bitmaps.len() >= 1,
        spec_parse_at(lines, i).catalog.bitmaps.first().id == id,
        spec_parse_at(lines, i).catalog.bitmaps.first().file == spec_normalize(path),
{
    assert(spec_classify_line(lines[i]) == LineClass::Bitmap(id, path));
    if i + 1 < lines.len() && line_is(lines[i + 1], "BEGIN"@) {
        let e = block_end(lines, i + 2);
        let a = attrs_of(lines.subrange(i + 2, e));
        let single = single_bitmap(bitmap_model(id, path, a), a.warnings);
        let rest = spec_parse_at(lines, parse_resume(lines, i, i + 2));
        assert(spec_parse_at(lines, i) == combine(single, rest));
        assert(spec_parse_at(lines, i).catalog.bitmaps.first() == bitmap_model(id, path, a));
    } else {
        let single = single_bitmap(bitmap_model(id, path, empty_attrs()), Seq::<Seq<char>>::empty());
        let rest = spec_parse_at(lines, i + 1);
        assert(spec_parse_at(lines, i) == combine(single, rest));
        assert(spec_parse_at(lines, i).catalog.bitmaps.first() == bitmap_model(
            id,
            path,
            empty_attrs(),
        ));
    }
}

/// For every well-formed icon declaration line, the parsed entry's
/// identifier and file path are exactly the two captures of the pattern,
/// kept verbatim.
pub proof fn lemma_icon_line_parsed(lines: Seq<Seq<char>>, i: int, id: Seq<char>, path: Seq<char>)
    requires
        0 <= i < lines.len(),
        spec_match_decl(lines[i], "ICON"@) == Some((id, path)),
    ensures
        spec_parse_at(lines, i).catalog.icons.len() >= 1,
        spec_parse_at(lines, i).catalog.icons.first() == (IconModel { id: id, file: path }),
{
    let l = lines[i];
    reveal_strlit("BITMAP");
    reveal_strlit("ICON");
    proof_decl_keywords_exclusive(l, "BITMAP"@, "ICON"@);
    assert(spec_classify_line(l) == LineClass::Icon(id, path));
    let single = single_icon(IconModel { id: id, file: path });
    let rest = spec_parse_at(lines, i + 1);
    assert(spec_parse_at(lines, i) == combine(single, rest));
    assert(spec_parse_at(lines, i).catalog.icons.first() == (IconModel { id: id, file: path }));
}

/// A line cannot be a declaration of two different keywords: the keyword
/// stands at one position, fixed by the line alone.
proof fn proof_decl_keywords_exclusive(l: Seq<char>, kw1: Seq<char>, kw2: Seq<char>)
    requires
        kw1.len() > 0,
        kw2.len() > 0,
        kw1[0] != kw2[0],
    ensures
        !(spec_match_decl(l, kw1) is Some && spec_match_decl(l, kw2) is Some),
{
    if spec_match_decl(l, kw1) is Some && spec_match_decl(l, kw2) is Some {
        let e = crate::scan::word_end(l, 0);
        let p = crate::scan::space_end(l, e);
        assert(l.subrange(p, p + kw1.len())[0] == kw1[0]);
        assert(l.subrange(p, p + kw2.len())[0] == kw2[0]);
        assert(l[p] == kw1[0] && l[p] == kw2[0]);
        assert(false);
    }
}

/// A single-line block opener is not a declaration: it ends with the
/// `BEGIN` keyword, never with a closing quote.
proof fn proof_kw_begin_not_decl(l: Seq<char>, kw: Seq<char>, declkw: Seq<char>)
    requires
        spec_kw_begin(l, kw),
    ensures
        spec_match_decl(l, declkw) is None,
{
    reveal_strlit("BEGIN");
    let p = crate::scan::space_end(l, kw.len() as int);
    assert(l.subrange(p, p + "BEGIN"@.len() as int)[4] == 'N');
    assert(l[l.len() - 1] == 'N');
    if spec_match_decl(l, declkw) is Some {
        assert(l[l.len() - 1] == '"');
        assert(false);
    }
}

/// Parsing a string-table block yields a table holding exactly the captures
/// of its valid item lines, in source order — and an empty block still
/// contributes an empty table to the catalog.
pub proof fn lemma_stringtable_block(lines: Seq<Seq<char>>, i: int)
    requires
        0 <= i < lines.len(),
        spec_kw_begin(lines[i], "STRINGTABLE"@),
    ensures
        spec_parse_at(lines, i).catalog.string_tables.len() >= 1,
        spec_parse_at(lines, i).catalog.string_tables.first() == items_of(
            lines.subrange(i + 1, block_end(lines, i + 1)),
        ),
{
    let l = lines[i];
    proof_kw_begin_not_decl(l, "STRINGTABLE"@, "BITMAP"@);
    proof_kw_begin_not_decl(l, "STRINGTABLE"@, "ICON"@);
    assert(spec_classify_line(l) == LineClass::StringTableBegin);
    let e = block_end(lines, i + 1);
    let single = single_table(items_of(lines.subrange(i + 1, e)));
    let rest = spec_parse_at(lines, parse_resume(lines, i, i + 1));
    assert(spec_parse_at(lines, i) == combine(single, rest));
    assert(spec_parse_at(lines, i).catalog.string_tables.first() == items_of(
        lines.subrange(i + 1, e),
    ));
}

/// The items of a block body are exactly the captures of its matching
/// lines, in source order: invalid lines contribute nothing, and the item
/// count equals the count of matching lines.
pub proof fn lemma_items_of_filter(body: Seq<Seq<char>>)
    ensures
        items_of(body) == body.filter(|l: Seq<char>| spec_match_item(l) is Some).map_values(
            |l: Seq<char>| item_of_line(l),
        ),
        items_of(body).len() == body.filter(|l: Seq<char>| spec_match_item(l) is Some).len(),
    decreases body.len(),
{
    reveal(Seq::filter);
    if body.len() == 0 {
        assert(items_of(body) =~= body.filter(|l: Seq<char>| spec_match_item(l) is Some)
            .map_values(|l: Seq<char>| item_of_line(l)));
    } else {
        lemma_items_of_filter(body.drop_last());
        let rest = body.drop_last();
        let fr = rest.filter(|l: Seq<char>| spec_match_item(l) is Some);
        if spec_match_item(body.last()) is Some {
            assert(body.filter(|l: Seq<char>| spec_match_item(l) is Some) == fr.push(body.last()));
            assert(fr.push(body.last()).map_values(|l: Seq<char>| item_of_line(l)) =~= fr
                .map_values(|l: Seq<char>| item_of_line(l)).push(item_of_line(body.last())));
            assert(items_of(body) =~= body.filter(|l: Seq<char>| spec_match_item(l) is Some)
                .map_values(|l: Seq<char>| item_of_line(l)));
        } else {
            assert(items_of(body) =~= body.filter(|l: Seq<char>| spec_match_item(l) is Some)
                .map_values(|l: Seq<char>| item_of_line(l)));
        }
    }
}

/// If no line at or after `j` is the terminator, the block scan runs to the
/// end of the input.
pub proof fn lemma_block_end_all(lines: Seq<Seq<char>>, j: int)
    requires
        0 <= j <= lines.len(),
        forall|k: int| j <= k < lines.len() ==> !line_is_end(lines[k]),
    ensures
        block_end(lines, j) == lines.len(),
    decreases lines.len() - j,
{
    if j < lines.len() {
        lemma_block_end_all(lines, j + 1);
    }
}

/// The menu entry collected when a block runs to the end of the input.
pub open spec fn unterminated_menu(lines: Seq<Seq<char>>, i: int) -> MenuModel {
    MenuModel { id: None, table: lines.subrange(i + 1, lines.len() as int) }
}

/// A block missing its `END` terminator consumes all remaining input
/// without error, and the entry is still added to the catalog with every
/// line that was collected.
pub proof fn lemma_unterminated_block(lines: Seq<Seq<char>>, i: int)
    requires
        0 <= i < lines.len(),
        spec_kw_begin(lines[i], "MENU"@),
        forall|k: int| i < k < lines.len() ==> !line_is_end(lines[k]),
    ensures
        block_end(lines, i + 1) == lines.len(),
        spec_parse_at(lines, i).catalog.menus.len() == 1,
        spec_parse_at(lines, i).catalog.menus.first() == unterminated_menu(lines, i),
{
    let l = lines[i];
    reveal_strlit("MENU");
    reveal_strlit("STRINGTABLE");
    reveal_strlit("ACCELERATORS");
    proof_kw_begin_not_decl(l, "MENU"@, "BITMAP"@);
    proof_kw_begin_not_decl(l, "MENU"@, "ICON"@);
    proof_kw_begin_not_decl(l, "MENU"@, "TOOLBAR"@);
    assert(l.subrange(0, "MENU"@.len() as int)[0] == 'M');
    assert(l[0] == 'M');
    if spec_kw_begin(l, "STRINGTABLE"@) {
        assert(l.subrange(0, "STRINGTABLE"@.len() as int)[0] == 'S');
        assert(false);
    }
    if line_is(l, "STRINGTABLE"@) {
        assert(l[0] == 'S');
        assert(false);
    }
    if spec_kw_begin(l, "ACCELERATORS"@) {
        assert(l.subrange(0, "ACCELERATORS"@.len() as int)[0] == 'A');
        assert(false);
    }
    if line_is(l, "ACCELERATORS"@) {
        assert(l[0] == 'A');
        assert(false);
    }
    assert(spec_classify_line(l) == LineClass::MenuBegin);
    lemma_block_end_all(lines, i + 1);
    let e = block_end(lines, i + 1);
    let mm = MenuModel { id: None, table: lines.subrange(i + 1, e) };
    let single = single_menu(mm);
    assert(parse_resume(lines, i, i + 1) == lines.len() as int);
    let rest = spec_parse_at(lines, lines.len() as int);
    assert(rest == empty_parse());
    assert(spec_parse_at(lines, i) == combine(single, rest));
    assert(spec_parse_at(lines, i).catalog.menus =~= seq![mm]);
}

} // verus!
