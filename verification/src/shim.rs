//! The shim-code emitter: renders the catalog as source-text functions that
//! let legacy call sites keep working against a catalog-backed runtime.
//!
//! Every rendering function is a pure function of the catalog, specified
//! character by character. The registries the generated text names
//! (`qtMfcBitmapResources`, `qtIconNames`, …) exist only in the generated
//! target system; the emitter itself holds no such state.

use vstd::prelude::*;

use crate::parser::CatalogModel;
use crate::parser::RcCatalog;
use crate::resource::AccelModel;
use crate::resource::BitmapModel;
use crate::resource::DialogModel;
use crate::resource::IconModel;
use crate::resource::ItemModel;
use crate::resource::MenuModel;
use crate::resource::RcAcceleratorTable;
use crate::resource::RcAcceleratorTableList;
use crate::resource::RcBitmap;
use crate::resource::RcBitmapList;
use crate::resource::RcDialogEx;
use crate::resource::RcDialogExList;
use crate::resource::RcIcon;
use crate::resource::RcIconList;
use crate::resource::RcMenu;
use crate::resource::RcMenuList;
use crate::resource::RcStringTable;
use crate::resource::RcStringTableItem;
use crate::resource::RcStringTableList;
use crate::resource::RcToolbar;
use crate::resource::RcToolbarList;
use crate::resource::ToolbarModel;

verus! {

/// The identifier text of an optional id: the id itself, or nothing.
pub open spec fn opt_id_text(o: Option<Seq<char>>) -> Seq<char> {
    match o {
        Some(s) => s,
        None => Seq::empty(),
    }
}

/// Append an optional identifier.
fn append_opt_id(out: &mut String, id: &Option<String>)
    ensures
        final(out)@ == old(out)@ + opt_id_text(crate::resource::opt_str_view(*id)),
{
    match id {
        Some(s) => {
            out.append(s.as_str());
        },
        None => {
            proof {
                assert(out@ =~= old(out)@ + Seq::<char>::empty());
            }
        },
    }
}

/// The two shim lines emitted for one bitmap entry: a comment restating the
/// declaration, then the registry insertion.
pub open spec fn bitmap_entry_text(b: BitmapModel) -> Seq<char> {
    "    // "@ + b.id + " BITMAP "@ + b.file + "\n    qtMfcBitmapResources.insert("@ + b.id
        + ", new CBitmap("@ + b.file + "));\n"@
}

pub open spec fn bitmap_entries_text(bs: Seq<BitmapModel>) -> Seq<char>
    decreases bs.len(),
{
    if bs.len() == 0 {
        Seq::empty()
    } else {
        bitmap_entry_text(bs.first()) + bitmap_entries_text(bs.drop_first())
    }
}

/// The whole bitmap-registry initializer.
pub open spec fn bitmap_shim_text(bs: Seq<BitmapModel>) -> Seq<char> {
    "void qtMfcInitBitmapResources() {\n    qtMfcBitmapResources.clear();\n"@
        + bitmap_entries_text(bs) + "}\n"@
}

fn render_bitmap_entries(v: &Vec<RcBitmap>) -> (r: String)
    ensures
        r@ == bitmap_entries_text(v@.map_values(|b: RcBitmap| b@)),
{
    let ghost bs = v@.map_values(|b: RcBitmap| b@);
    let mut out = String::new();
    let n = v.len();
    proof {
        assert(bs.skip(0) =~= bs);
        assert(Seq::<char>::empty() + bitmap_entries_text(bs) =~= bitmap_entries_text(bs));
    }
    let mut k: usize = 0;
    while k < n
        invariant
            0 <= k <= n,
            n == v@.len(),
            bs == v@.map_values(|b: RcBitmap| b@),
            bs.len() == n,
            bitmap_entries_text(bs) =~= out@ + bitmap_entries_text(bs.skip(k as int)),
        decreases n - k,
    {
        let ghost oldout = out@;
        let b = &v[k];
        out.append("    // ");
        out.append(b.id.as_str());
        out.append(" BITMAP ");
        out.append(b.file.as_str());
        out.append("\n    qtMfcBitmapResources.insert(");
        out.append(b.id.as_str());
        out.append(", new CBitmap(");
        out.append(b.file.as_str());
        out.append("));\n");
        proof {
            assert(bs[k as int] == v@[k as int]@);
            assert(bs.skip(k as int).drop_first() =~= bs.skip(k as int + 1));
            assert(bs.skip(k as int).first() == bs[k as int]);
            assert(out@ =~= oldout + bitmap_entry_text(bs[k as int]));
            assert(bitmap_entries_text(bs) =~= out@ + bitmap_entries_text(bs.skip(k as int + 1)));
        }
        k = k + 1;
    }
    proof {
        assert(bs.skip(n as int).len() == 0);
        assert(out@ + bitmap_entries_text(bs.skip(n as int)) =~= out@);
    }
    out
}

impl RcBitmapList {
    /// Render the bitmap-registry initializer shim.
    pub fn output(&self) -> (r: String)
        ensures
            r@ == bitmap_shim_text(self@),
    {
        let mut out = String::from_str(
            "void qtMfcInitBitmapResources() {\n    qtMfcBitmapResources.clear();\n",
        );
        let entries = render_bitmap_entries(&self.bitmaps);
        out.append(entries.as_str());
        out.append("}\n");
        out
    }
}

/// The two shim lines emitted for one icon entry.
pub open spec fn icon_entry_text(i: IconModel) -> Seq<char> {
    "    // "@ + i.id + " ICON "@ + i.file + "\n    qtIconNames.insert("@ + i.id + ", "@ + i.file
        + ");\n"@
}

pub open spec fn icon_entries_text(is: Seq<IconModel>) -> Seq<char>
    decreases is.len(),
{
    if is.len() == 0 {
        Seq::empty()
    } else {
        icon_entry_text(is.first()) + icon_entries_text(is.drop_first())
    }
}

/// The whole icon-registry initializer.
pub open spec fn icon_shim_text(is: Seq<IconModel>) -> Seq<char> {
    "void qtInitIconResources() {\n    qtIconNames.clear();\n    qtIconResources.clear();\n    // Icon with lowest ID value placed first to ensure application icon remains consistent on all systems.\n"@
        + icon_entries_text(is) + "}\n"@
}

fn render_icon_entries(v: &Vec<RcIcon>) -> (r: String)
    ensures
        r@ == icon_entries_text(v@.map_values(|i: RcIcon| i@)),
{
    let ghost is = v@.map_values(|i: RcIcon| i@);
    let mut out = String::new();
    let n = v.len();
    proof {
        assert(is.skip(0) =~= is);
        assert(Seq::<char>::empty() + icon_entries_text(is) =~= icon_entries_text(is));
    }
    let mut k: usize = 0;
    while k < n
        invariant
            0 <= k <= n,
            n == v@.len(),
            is == v@.map_values(|i: RcIcon| i@),
            is.len() == n,
            icon_entries_text(is) =~= out@ + icon_entries_text(is.skip(k as int)),
        decreases n - k,
    {
        let ghost oldout = out@;
        let ic = &v[k];
        out.append("    // ");
        out.append(ic.id.as_str());
        out.append(" ICON ");
        out.append(ic.file.as_str());
        out.append("\n    qtIconNames.insert(");
        out.append(ic.id.as_str());
        out.append(", ");
        out.append(ic.file.as_str());
        out.append(");\n");
        proof {
            assert(is[k as int] == v@[k as int]@);
            assert(is.skip(k as int).drop_first() =~= is.skip(k as int + 1));
            assert(is.skip(k as int).first() == is[k as int]);
            assert(out@ =~= oldout + icon_entry_text(is[k as int]));
            assert(icon_entries_text(is) =~= out@ + icon_entries_text(is.skip(k as int + 1)));
        }
        k = k + 1;
    }
    proof {
        assert(is.skip(n as int).len() == 0);
        assert(out@ + icon_entries_text(is.skip(n as int)) =~= out@);
    }
    out
}

impl RcIconList {
    /// Render the icon-registry initializer shim.
    pub fn output(&self) -> (r: String)
        ensures
            r@ == icon_shim_text(self@),
    {
        let mut out = String::from_str(
            "void qtInitIconResources() {\n    qtIconNames.clear();\n    qtIconResources.clear();\n    // Icon with lowest ID value placed first to ensure application icon remains consistent on all systems.\n",
        );
        let entries = render_icon_entries(&self.icons);
        out.append(entries.as_str());
        out.append("}\n");
        out
    }
}

/// The shim line emitted for one string-table item.
pub open spec fn item_entry_text(it: ItemModel) -> Seq<char> {
    "    qtMfcStringResources.insert("@ + it.id + ", \""@ + it.text + "\");\n"@
}

pub open spec fn item_entries_text(ts: Seq<ItemModel>) -> Seq<char>
    decreases ts.len(),
{
    if ts.len() == 0 {
        Seq::empty()
    } else {
        item_entry_text(ts.first()) + item_entries_text(ts.drop_first())
    }
}

fn render_item_entries(v: &Vec<RcStringTableItem>) -> (r: String)
    ensures
        r@ == item_entries_text(v@.map_values(|it: RcStringTableItem| it@)),
{
    let ghost ts = v@.map_values(|it: RcStringTableItem| it@);
    let mut out = String::new();
    let n = v.len();
    proof {
        assert(ts.skip(0) =~= ts);
        assert(Seq::<char>::empty() + item_entries_text(ts) =~= item_entries_text(ts));
    }
    let mut k: usize = 0;
    while k < n
        invariant
            0 <= k <= n,
            n == v@.len(),
            ts == v@.map_values(|it: RcStringTableItem| it@),
            ts.len() == n,
            item_entries_text(ts) =~= out@ + item_entries_text(ts.skip(k as int)),
        decreases n - k,
    {
        let ghost oldout = out@;
        let it = &v[k];
        out.append("    qtMfcStringResources.insert(");
        out.append(it.id.as_str());
        out.append(", \"");
        out.append(it.text.as_str());
        out.append("\");\n");
        proof {
            assert(ts[k as int] == v@[k as int]@);
            assert(ts.skip(k as int).drop_first() =~= ts.skip(k as int + 1));
            assert(ts.skip(k as int).first() == ts[k as int]);
            assert(out@ =~= oldout + item_entry_text(ts[k as int]));
            assert(item_entries_text(ts) =~= out@ + item_entries_text(ts.skip(k as int + 1)));
        }
        k = k + 1;
    }
    proof {
        assert(ts.skip(n as int).len() == 0);
        assert(out@ + item_entries_text(ts.skip(n as int)) =~= out@);
    }
    out
}

impl RcStringTable {
    /// Render the insertion lines for this table's items.
    pub fn output(&self) -> (r: String)
        ensures
            r@ == item_entries_text(self@),
    {
        render_item_entries(&self.table)
    }
}

/// The shim lines emitted for one whole string table: its items framed by
/// comments restating the block markers.
pub open spec fn table_entry_text(t: Seq<ItemModel>) -> Seq<char> {
    "    // STRINGTABLE\n    // BEGIN\n"@ + item_entries_text(t) + "    // END\n"@
}

pub open spec fn table_entries_text(ts: Seq<Seq<ItemModel>>) -> Seq<char>
    decreases ts.len(),
{
    if ts.len() == 0 {
        Seq::empty()
    } else {
        table_entry_text(ts.first()) + table_entries_text(ts.drop_first())
    }
}

/// The whole string-registry initializer: the parsed tables, then the fixed
/// block of built-in framework message strings, emitted unconditionally.
pub open spec fn stringtable_shim_text(ts: Seq<Seq<ItemModel>>) -> Seq<char> {
    "void qtMfcInitStringResources() {\n    qtMfcStringResources.clear();\n"@
        + table_entries_text(ts)
        + "    // AFX resources\n    qtMfcStringResources.insert(AFX_IDS_ALLFILTER, \"All files|\");\n    qtMfcStringResources.insert(AFX_IDS_OPENFILE, \"Open\");\n    qtMfcStringResources.insert(AFX_IDS_SAVEFILE, \"Save As\");\n    qtMfcStringResources.insert(AFX_IDS_SAVEFILECOPY, \"Save As\");\n    qtMfcStringResources.insert(AFX_IDS_UNTITLED, \"Untitled\");\n    qtMfcStringResources.insert(AFX_IDP_ASK_TO_SAVE, \"Save changes to %s?\");\n    qtMfcStringResources.insert(AFX_IDP_FAILED_TO_CREATE_DOC, \"Failed to create empty document.\");\n"@
        + "}\n"@
}

fn render_table_entries(v: &Vec<RcStringTable>) -> (r: String)
    ensures
        r@ == table_entries_text(v@.map_values(|t: RcStringTable| t@)),
{
    let ghost ts = v@.map_values(|t: RcStringTable| t@);
    let mut out = String::new();
    let n = v.len();
    proof {
        assert(ts.skip(0) =~= ts);
        assert(Seq::<char>::empty() + table_entries_text(ts) =~= table_entries_text(ts));
    }
    let mut k: usize = 0;
    while k < n
        invariant
            0 <= k <= n,
            n == v@.len(),
            ts == v@.map_values(|t: RcStringTable| t@),
            ts.len() == n,
            table_entries_text(ts) =~= out@ + table_entries_text(ts.skip(k as int)),
        decreases n - k,
    {
        let ghost oldout = out@;
        let t = &v[k];
        out.append("    // STRINGTABLE\n    // BEGIN\n");
        let items = t.output();
        out.append(items.as_str());
        out.append("    // END\n");
        proof {
            assert(ts[k as int] == v@[k as int]@);
            assert(ts.skip(k as int).drop_first() =~= ts.skip(k as int + 1));
            assert(ts.skip(k as int).first() == ts[k as int]);
            assert(out@ =~= oldout + table_entry_text(ts[k as int]));
            assert(table_entries_text(ts) =~= out@ + table_entries_text(ts.skip(k as int + 1)));
        }
        k = k + 1;
    }
    proof {
        assert(ts.skip(n as int).len() == 0);
        assert(out@ + table_entries_text(ts.skip(n as int)) =~= out@);
    }
    out
}

impl RcStringTableList {
    /// Render the string-registry initializer shim, including the built-in
    /// framework message strings.
    pub fn output(&self) -> (r: String)
        ensures
            r@ == stringtable_shim_text(self@),
    {
        let mut out = String::from_str(
            "void qtMfcInitStringResources() {\n    qtMfcStringResources.clear();\n",
        );
        let entries = render_table_entries(&self.string_tables);
        out.append(entries.as_str());
        out.append(
            "    // AFX resources\n    qtMfcStringResources.insert(AFX_IDS_ALLFILTER, \"All files|\");\n    qtMfcStringResources.insert(AFX_IDS_OPENFILE, \"Open\");\n    qtMfcStringResources.insert(AFX_IDS_SAVEFILE, \"Save As\");\n    qtMfcStringResources.insert(AFX_IDS_SAVEFILECOPY, \"Save As\");\n    qtMfcStringResources.insert(AFX_IDS_UNTITLED, \"Untitled\");\n    qtMfcStringResources.insert(AFX_IDP_ASK_TO_SAVE, \"Save changes to %s?\");\n    qtMfcStringResources.insert(AFX_IDP_FAILED_TO_CREATE_DOC, \"Failed to create empty document.\");\n",
        );
        out.append("}\n");
        out
    }
}

/// The placeholder initializer function emitted for one toolbar.
pub open spec fn toolbar_def_text(t: ToolbarModel) -> Seq<char> {
    "void qtMfcInitToolBarResource_"@ + t.id
        + "(UINT dlgID, CToolBar* parent) {\n    // Toolbar logic here...\n}\n"@
}

pub open spec fn toolbar_defs_text(ts: Seq<ToolbarModel>) -> Seq<char>
    decreases ts.len(),
{
    if ts.len() == 0 {
        Seq::empty()
    } else {
        toolbar_def_text(ts.first()) + toolbar_defs_text(ts.drop_first())
    }
}

/// The dispatch case emitted for one toolbar.
pub open spec fn toolbar_case_text(t: ToolbarModel) -> Seq<char> {
    "        case "@ + t.id + ":\n            qtMfcInitToolBarResource_"@ + t.id
        + "(dlgID, parent);\n            break;\n"@
}

pub open spec fn toolbar_cases_text(ts: Seq<ToolbarModel>) -> Seq<char>
    decreases ts.len(),
{
    if ts.len() == 0 {
        Seq::empty()
    } else {
        toolbar_case_text(ts.first()) + toolbar_cases_text(ts.drop_first())
    }
}

/// The whole toolbar shim: one initializer per toolbar, then the dispatch.
pub open spec fn toolbar_shim_text(ts: Seq<ToolbarModel>) -> Seq<char> {
    toolbar_defs_text(ts)
        + "void qtMfcInitToolBarResource(UINT dlgID, CToolBar* parent) {\n    switch (dlgID) {\n"@
        + toolbar_cases_text(ts) + "    }\n}\n"@
}

fn render_toolbar_defs(v: &Vec<RcToolbar>) -> (r: String)
    ensures
        r@ == toolbar_defs_text(v@.map_values(|t: RcToolbar| t@)),
{
    let ghost ts = v@.map_values(|t: RcToolbar| t@);
    let mut out = String::new();
    let n = v.len();
    proof {
        assert(ts.skip(0) =~= ts);
        assert(Seq::<char>::empty() + toolbar_defs_text(ts) =~= toolbar_defs_text(ts));
    }
    let mut k: usize = 0;
    while k < n
        invariant
            0 <= k <= n,
            n == v@.len(),
            ts == v@.map_values(|t: RcToolbar| t@),
            ts.len() == n,
            toolbar_defs_text(ts) =~= out@ + toolbar_defs_text(ts.skip(k as int)),
        decreases n - k,
    {
        let ghost oldout = out@;
        let t = &v[k];
        out.append("void qtMfcInitToolBarResource_");
        out.append(t.id.as_str());
        out.append("(UINT dlgID, CToolBar* parent) {\n    // Toolbar logic here...\n}\n");
        proof {
            assert(ts[k as int] == v@[k as int]@);
            assert(ts.skip(k as int).drop_first() =~= ts.skip(k as int + 1));
            assert(ts.skip(k as int).first() == ts[k as int]);
            assert(out@ =~= oldout + toolbar_def_text(ts[k as int]));
            assert(toolbar_defs_text(ts) =~= out@ + toolbar_defs_text(ts.skip(k as int + 1)));
        }
        k = k + 1;
    }
    proof {
        assert(ts.skip(n as int).len() == 0);
        assert(out@ + toolbar_defs_text(ts.skip(n as int)) =~= out@);
    }
    out
}

fn render_toolbar_cases(v: &Vec<RcToolbar>) -> (r: String)
    ensures
        r@ == toolbar_cases_text(v@.map_values(|t: RcToolbar| t@)),
{
    let ghost ts = v@.map_values(|t: RcToolbar| t@);
    let mut out = String::new();
    let n = v.len();
    proof {
        assert(ts.skip(0) =~= ts);
        assert(Seq::<char>::empty() + toolbar_cases_text(ts) =~= toolbar_cases_text(ts));
    }
    let mut k: usize = 0;
    while k < n
        invariant
            0 <= k <= n,
            n == v@.len(),
            ts == v@.map_values(|t: RcToolbar| t@),
            ts.len() == n,
            toolbar_cases_text(ts) =~= out@ + toolbar_cases_text(ts.skip(k as int)),
        decreases n - k,
    {
        let ghost oldout = out@;
        let t = &v[k];
        out.append("        case ");
        out.append(t.id.as_str());
        out.append(":\n            qtMfcInitToolBarResource_");
        out.append(t.id.as_str());
        out.append("(dlgID, parent);\n            break;\n");
        proof {
            assert(ts[k as int] == v@[k as int]@);
            assert(ts.skip(k as int).drop_first() =~= ts.skip(k as int + 1));
            assert(ts.skip(k as int).first() == ts[k as int]);
            assert(out@ =~= oldout + toolbar_case_text(ts[k as int]));
            assert(toolbar_cases_text(ts) =~= out@ + toolbar_cases_text(ts.skip(k as int + 1)));
        }
        k = k + 1;
    }
    proof {
        assert(ts.skip(n as int).len() == 0);
        assert(out@ + toolbar_cases_text(ts.skip(n as int)) =~= out@);
    }
    out
}

impl RcToolbarList {
    /// Render the toolbar shim: per-toolbar initializers and the dispatch.
    pub fn output(&self) -> (r: String)
        ensures
            r@ == toolbar_shim_text(self@),
    {
        let mut out = render_toolbar_defs(&self.toolbars);
        out.append("void qtMfcInitToolBarResource(UINT dlgID, CToolBar* parent) {\n    switch (dlgID) {\n");
        let cases = render_toolbar_cases(&self.toolbars);
        out.append(cases.as_str());
        out.append("    }\n}\n");
        out
    }
}

/// The placeholder accelerator array emitted for one table.
pub open spec fn accel_def_text(a: AccelModel) -> Seq<char> {
    "// "@ + opt_id_text(a.id) + " ACCELERATORS\nACCEL ACCEL_"@ + opt_id_text(a.id)
        + "[] = {\n    // Accelerator table logic here...\n    { 0, 0, 0 },\n};\n"@
}

pub open spec fn accel_defs_text(ts: Seq<AccelModel>) -> Seq<char>
    decreases ts.len(),
{
    if ts.len() == 0 {
        Seq::empty()
    } else {
        accel_def_text(ts.first()) + accel_defs_text(ts.drop_first())
    }
}

/// The dispatch case emitted for one accelerator table.
pub open spec fn accel_case_text(a: AccelModel) -> Seq<char> {
    "        case "@ + opt_id_text(a.id) + ":\n            return ACCEL_"@ + opt_id_text(a.id)
        + ";\n            break;\n"@
}

pub open spec fn accel_cases_text(ts: Seq<AccelModel>) -> Seq<char>
    decreases ts.len(),
{
    if ts.len() == 0 {
        Seq::empty()
    } else {
        accel_case_text(ts.first()) + accel_cases_text(ts.drop_first())
    }
}

/// The whole accelerator shim: one array per table, then the lookup.
pub open spec fn accel_shim_text(ts: Seq<AccelModel>) -> Seq<char> {
    accel_defs_text(ts) + "ACCEL* qtMfcAcceleratorResource(UINT id) {\n    switch (id) {\n"@
        + accel_cases_text(ts) + "    }\n    return NULL;\n}\n"@
}

fn render_accel_defs(v: &Vec<RcAcceleratorTable>) -> (r: String)
    ensures
        r@ == accel_defs_text(v@.map_values(|t: RcAcceleratorTable| t@)),
{
    let ghost ts = v@.map_values(|t: RcAcceleratorTable| t@);
    let mut out = String::new();
    let n = v.len();
    proof {
        assert(ts.skip(0) =~= ts);
        assert(Seq::<char>::empty() + accel_defs_text(ts) =~= accel_defs_text(ts));
    }
    let mut k: usize = 0;
    while k < n
        invariant
            0 <= k <= n,
            n == v@.len(),
            ts == v@.map_values(|t: RcAcceleratorTable| t@),
            ts.len() == n,
            accel_defs_text(ts) =~= out@ + accel_defs_text(ts.skip(k as int)),
        decreases n - k,
    {
        let ghost oldout = out@;
        let t = &v[k];
        out.append("// ");
        append_opt_id(&mut out, &t.id);
        out.append(" ACCELERATORS\nACCEL ACCEL_");
        append_opt_id(&mut out, &t.id);
        out.append("[] = {\n    // Accelerator table logic here...\n    { 0, 0, 0 },\n};\n");
        proof {
            assert(ts[k as int] == v@[k as int]@);
            assert(ts.skip(k as int).drop_first() =~= ts.skip(k as int + 1));
            assert(ts.skip(k as int).first() == ts[k as int]);
            assert(out@ =~= oldout + accel_def_text(ts[k as int]));
            assert(accel_defs_text(ts) =~= out@ + accel_defs_text(ts.skip(k as int + 1)));
        }
        k = k + 1;
    }
    proof {
        assert(ts.skip(n as int).len() == 0);
        assert(out@ + accel_defs_text(ts.skip(n as int)) =~= out@);
    }
    out
}

fn render_accel_cases(v: &Vec<RcAcceleratorTable>) -> (r: String)
    ensures
        r@ == accel_cases_text(v@.map_values(|t: RcAcceleratorTable| t@)),
{
    let ghost ts = v@.map_values(|t: RcAcceleratorTable| t@);
    let mut out = String::new();
    let n = v.len();
    proof {
        assert(ts.skip(0) =~= ts);
        assert(Seq::<char>::empty() + accel_cases_text(ts) =~= accel_cases_text(ts));
    }
    let mut k: usize = 0;
    while k < n
        invariant
            0 <= k <= n,
            n == v@.len(),
            ts == v@.map_values(|t: RcAcceleratorTable| t@),
            ts.len() == n,
            accel_cases_text(ts) =~= out@ + accel_cases_text(ts.skip(k as int)),
        decreases n - k,
    {
        let ghost oldout = out@;
        let t = &v[k];
        out.append("        case ");
        append_opt_id(&mut out, &t.id);
        out.append(":\n            return ACCEL_");
        append_opt_id(&mut out, &t.id);
        out.append(";\n            break;\n");
        proof {
            assert(ts[k as int] == v@[k as int]@);
            assert(ts.skip(k as int).drop_first() =~= ts.skip(k as int + 1));
            assert(ts.skip(k as int).first() == ts[k as int]);
            assert(out@ =~= oldout + accel_case_text(ts[k as int]));
            assert(accel_cases_text(ts) =~= out@ + accel_cases_text(ts.skip(k as int + 1)));
        }
        k = k + 1;
    }
    proof {
        assert(ts.skip(n as int).len() == 0);
        assert(out@ + accel_cases_text(ts.skip(n as int)) =~= out@);
    }
    out
}

impl RcAcceleratorTableList {
    /// Render the accelerator shim: per-table arrays and the lookup.
    pub fn output(&self) -> (r: String)
        ensures
            r@ == accel_shim_text(self@),
    {
        let mut out = render_accel_defs(&self.accelerator_tables);
        out.append("ACCEL* qtMfcAcceleratorResource(UINT id) {\n    switch (id) {\n");
        let cases = render_accel_cases(&self.accelerator_tables);
        out.append(cases.as_str());
        out.append("    }\n    return NULL;\n}\n");
        out
    }
}

/// The placeholder initializer function emitted for one menu.
pub open spec fn menu_def_text(m: MenuModel) -> Seq<char> {
    "void qtMfcInitMenuResource_"@ + opt_id_text(m.id)
        + "(CMenu* parent) {\n    // Menu logic here...\n}\n"@
}

pub open spec fn menu_defs_text(ms: Seq<MenuModel>) -> Seq<char>
    decreases ms.len(),
{
    if ms.len() == 0 {
        Seq::empty()
    } else {
        menu_def_text(ms.first()) + menu_defs_text(ms.drop_first())
    }
}

/// The dispatch case emitted for one menu.
pub open spec fn menu_case_text(m: MenuModel) -> Seq<char> {
    "        case "@ + opt_id_text(m.id) + ":\n            qtMfcInitMenuResource_"@ + opt_id_text(
        m.id,
    ) + "(parent);\n            break;\n"@
}

pub open spec fn menu_cases_text(ms: Seq<MenuModel>) -> Seq<char>
    decreases ms.len(),
{
    if ms.len() == 0 {
        Seq::empty()
    } else {
        menu_case_text(ms.first()) + menu_cases_text(ms.drop_first())
    }
}

/// The whole menu shim: per-menu initializers, the dispatch, and the fixed
/// shortcut-fixup loop that scans action texts for tab-delimited hints. The
/// loop is literal shim logic, not evaluated by the emitter.
pub open spec fn menu_shim_text(ms: Seq<MenuModel>) -> Seq<char> {
    menu_defs_text(ms)
        + "void qtMfcInitMenuResource(UINT menuID, CMenu* parent) {\n    switch (menuID) {\n"@
        + menu_cases_text(ms)
        + "    }\n    // Fixup shortcuts\n    int menu = 0;\n    CMenu* subMenu = parent->GetSubMenu(menu);\n    while (subMenu) {\n        foreach (QAction* action, subMenu->toQMenu()->actions()) {\n            if (action->text().contains(\"\\t\")) {\n                action->setShortcut(QKeySequence(action->text().split(\"\\t\").at(1)));\n            }\n        }\n        menu++;\n        subMenu = parent->GetSubMenu(menu);\n    }\n}\n"@
}

fn render_menu_defs(v: &Vec<RcMenu>) -> (r: String)
    ensures
        r@ == menu_defs_text(v@.map_values(|m: RcMenu| m@)),
{
    let ghost ms = v@.map_values(|m: RcMenu| m@);
    let mut out = String::new();
    let n = v.len();
    proof {
        assert(ms.skip(0) =~= ms);
        assert(Seq::<char>::empty() + menu_defs_text(ms) =~= menu_defs_text(ms));
    }
    let mut k: usize = 0;
    while k < n
        invariant
            0 <= k <= n,
            n == v@.len(),
            ms == v@.map_values(|m: RcMenu| m@),
            ms.len() == n,
            menu_defs_text(ms) =~= out@ + menu_defs_text(ms.skip(k as int)),
        decreases n - k,
    {
        let ghost oldout = out@;
        let m = &v[k];
        out.append("void qtMfcInitMenuResource_");
        append_opt_id(&mut out, &m.id);
        out.append("(CMenu* parent) {\n    // Menu logic here...\n}\n");
        proof {
            assert(ms[k as int] == v@[k as int]@);
            assert(ms.skip(k as int).drop_first() =~= ms.skip(k as int + 1));
            assert(ms.skip(k as int).first() == ms[k as int]);
            assert(out@ =~= oldout + menu_def_text(ms[k as int]));
            assert(menu_defs_text(ms) =~= out@ + menu_defs_text(ms.skip(k as int + 1)));
        }
        k = k + 1;
    }
    proof {
        assert(ms.skip(n as int).len() == 0);
        assert(out@ + menu_defs_text(ms.skip(n as int)) =~= out@);
    }
    out
}

fn render_menu_cases(v: &Vec<RcMenu>) -> (r: String)
    ensures
        r@ == menu_cases_text(v@.map_values(|m: RcMenu| m@)),
{
    let ghost ms = v@.map_values(|m: RcMenu| m@);
    let mut out = String::new();
    let n = v.len();
    proof {
        assert(ms.skip(0) =~= ms);
        assert(Seq::<char>::empty() + menu_cases_text(ms) =~= menu_cases_text(ms));
    }
    let mut k: usize = 0;
    while k < n
        invariant
            0 <= k <= n,
            n == v@.len(),
            ms == v@.map_values(|m: RcMenu| m@),
            ms.len() == n,
            menu_cases_text(ms) =~= out@ + menu_cases_text(ms.skip(k as int)),
        decreases n - k,
    {
        let ghost oldout = out@;
        let m = &v[k];
        out.append("        case ");
        append_opt_id(&mut out, &m.id);
        out.append(":\n            qtMfcInitMenuResource_");
        append_opt_id(&mut out, &m.id);
        out.append("(parent);\n            break;\n");
        proof {
            assert(ms[k as int] == v@[k as int]@);
            assert(ms.skip(k as int).drop_first() =~= ms.skip(k as int + 1));
            assert(ms.skip(k as int).first() == ms[k as int]);
            assert(out@ =~= oldout + menu_case_text(ms[k as int]));
            assert(menu_cases_text(ms) =~= out@ + menu_cases_text(ms.skip(k as int + 1)));
        }
        k = k + 1;
    }
    proof {
        assert(ms.skip(n as int).len() == 0);
        assert(out@ + menu_cases_text(ms.skip(n as int)) =~= out@);
    }
    out
}

impl RcMenuList {
    /// Render the menu shim: per-menu initializers, the dispatch, and the
    /// literal shortcut-fixup loop.
    pub fn output(&self) -> (r: String)
        ensures
            r@ == menu_shim_text(self@),
    {
        let mut out = render_menu_defs(&self.menus);
        out.append("void qtMfcInitMenuResource(UINT menuID, CMenu* parent) {\n    switch (menuID) {\n");
        let cases = render_menu_cases(&self.menus);
        out.append(cases.as_str());
        out.append(
            "    }\n    // Fixup shortcuts\n    int menu = 0;\n    CMenu* subMenu = parent->GetSubMenu(menu);\n    while (subMenu) {\n        foreach (QAction* action, subMenu->toQMenu()->actions()) {\n            if (action->text().contains(\"\\t\")) {\n                action->setShortcut(QKeySequence(action->text().split(\"\\t\").at(1)));\n            }\n        }\n        menu++;\n        subMenu = parent->GetSubMenu(menu);\n    }\n}\n",
        );
        out
    }
}

/// The placeholder initializer function emitted for one dialog.
pub open spec fn dialog_def_text(d: DialogModel) -> Seq<char> {
    "void qtMfcInitDialogResource_"@ + d.id
        + "(CDialog* parent) {\n    // Dialog logic here...\n}\n"@
}

pub open spec fn dialog_defs_text(ds: Seq<DialogModel>) -> Seq<char>
    decreases ds.len(),
{
    if ds.len() == 0 {
        Seq::empty()
    } else {
        dialog_def_text(ds.first()) + dialog_defs_text(ds.drop_first())
    }
}

/// The dispatch case emitted for one dialog.
pub open spec fn dialog_case_text(d: DialogModel) -> Seq<char> {
    "        case "@ + d.id + ":\n            qtMfcInitDialogResource_"@ + d.id
        + "(parent);\n            break;\n"@
}

pub open spec fn dialog_cases_text(ds: Seq<DialogModel>) -> Seq<char>
    decreases ds.len(),
{
    if ds.len() == 0 {
        Seq::empty()
    } else {
        dialog_case_text(ds.first()) + dialog_cases_text(ds.drop_first())
    }
}

/// The whole dialog shim: per-dialog initializers, then the dispatch with an
/// explicit zero-id no-op case and a default case that signals an
/// unimplemented dialog.
pub open spec fn dialog_shim_text(ds: Seq<DialogModel>) -> Seq<char> {
    dialog_defs_text(ds)
        + "void qtMfcInitDialogResource(UINT dlgID, CDialog* parent) {\n    switch (dlgID) {\n"@
        + dialog_cases_text(ds)
        + "        case 0:\n            // Allow blank dialogs.\n            break;\n        default:\n            qFatal(\"dialog resource not implemented...\");\n    }\n}\n"@
}

fn render_dialog_defs(v: &Vec<RcDialogEx>) -> (r: String)
    ensures
        r@ == dialog_defs_text(v@.map_values(|d: RcDialogEx| d@)),
{
    let ghost ds = v@.map_values(|d: RcDialogEx| d@);
    let mut out = String::new();
    let n = v.len();
    proof {
        assert(ds.skip(0) =~= ds);
        assert(Seq::<char>::empty() + dialog_defs_text(ds) =~= dialog_defs_text(ds));
    }
    let mut k: usize = 0;
    while k < n
        invariant
            0 <= k <= n,
            n == v@.len(),
            ds == v@.map_values(|d: RcDialogEx| d@),
            ds.len() == n,
            dialog_defs_text(ds) =~= out@ + dialog_defs_text(ds.skip(k as int)),
        decreases n - k,
    {
        let ghost oldout = out@;
        let d = &v[k];
        out.append("void qtMfcInitDialogResource_");
        out.append(d.id.as_str());
        out.append("(CDialog* parent) {\n    // Dialog logic here...\n}\n");
        proof {
            assert(ds[k as int] == v@[k as int]@);
            assert(ds.skip(k as int).drop_first() =~= ds.skip(k as int + 1));
            assert(ds.skip(k as int).first() == ds[k as int]);
            assert(out@ =~= oldout + dialog_def_text(ds[k as int]));
            assert(dialog_defs_text(ds) =~= out@ + dialog_defs_text(ds.skip(k as int + 1)));
        }
        k = k + 1;
    }
    proof {
        assert(ds.skip(n as int).len() == 0);
        assert(out@ + dialog_defs_text(ds.skip(n as int)) =~= out@);
    }
    out
}

fn render_dialog_cases(v: &Vec<RcDialogEx>) -> (r: String)
    ensures
        r@ == dialog_cases_text(v@.map_values(|d: RcDialogEx| d@)),
{
    let ghost ds = v@.map_values(|d: RcDialogEx| d@);
    let mut out = String::new();
    let n = v.len();
    proof {
        assert(ds.skip(0) =~= ds);
        assert(Seq::<char>::empty() + dialog_cases_text(ds) =~= dialog_cases_text(ds));
    }
    let mut k: usize = 0;
    while k < n
        invariant
            0 <= k <= n,
            n == v@.len(),
            ds == v@.map_values(|d: RcDialogEx| d@),
            ds.len() == n,
            dialog_cases_text(ds) =~= out@ + dialog_cases_text(ds.skip(k as int)),
        decreases n - k,
    {
        let ghost oldout = out@;
        let d = &v[k];
        out.append("        case ");
        out.append(d.id.as_str());
        out.append(":\n            qtMfcInitDialogResource_");
        out.append(d.id.as_str());
        out.append("(parent);\n            break;\n");
        proof {
            assert(ds[k as int] == v@[k as int]@);
            assert(ds.skip(k as int).drop_first() =~= ds.skip(k as int + 1));
            assert(ds.skip(k as int).first() == ds[k as int]);
            assert(out@ =~= oldout + dialog_case_text(ds[k as int]));
            assert(dialog_cases_text(ds) =~= out@ + dialog_cases_text(ds.skip(k as int + 1)));
        }
        k = k + 1;
    }
    proof {
        assert(ds.skip(n as int).len() == 0);
        assert(out@ + dialog_cases_text(ds.skip(n as int)) =~= out@);
    }
    out
}

impl RcDialogExList {
    /// Render the dialog shim: per-dialog initializers and the dispatch with
    /// the zero-id and default cases.
    pub fn output(&self) -> (r: String)
        ensures
            r@ == dialog_shim_text(self@),
    {
        let mut out = render_dialog_defs(&self.dialogs);
        out.append("void qtMfcInitDialogResource(UINT dlgID, CDialog* parent) {\n    switch (dlgID) {\n");
        let cases = render_dialog_cases(&self.dialogs);
        out.append(cases.as_str());
        out.append(
            "        case 0:\n            // Allow blank dialogs.\n            break;\n        default:\n            qFatal(\"dialog resource not implemented...\");\n    }\n}\n",
        );
        out
    }
}

/// The whole shim artifact: the seven renderings, in the order the pipeline
/// emits them.
pub open spec fn shim_text(c: CatalogModel) -> Seq<char> {
    bitmap_shim_text(c.bitmaps) + icon_shim_text(c.icons) + stringtable_shim_text(c.string_tables)
        + toolbar_shim_text(c.toolbars) + accel_shim_text(c.accelerator_tables) + menu_shim_text(
        c.menus,
    ) + dialog_shim_text(c.dialogs)
}

/// Render the whole shim artifact for a catalog.
pub fn render_shim(catalog: &RcCatalog) -> (r: String)
    ensures
        r@ == shim_text(catalog@),
{
    let mut out = catalog.bitmaps.output();
    let part = catalog.icons.output();
    out.append(part.as_str());
    let part = catalog.string_tables.output();
    out.append(part.as_str());
    let part = catalog.toolbars.output();
    out.append(part.as_str());
    let part = catalog.accelerator_tables.output();
    out.append(part.as_str());
    let part = catalog.menus.output();
    out.append(part.as_str());
    let part = catalog.dialogs.output();
    out.append(part.as_str());
    out
}

} // verus!
