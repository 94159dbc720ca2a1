//! Translator core for legacy Windows resource scripts (`.rc` files).
//!
//! The crate parses resource-script lines into a typed resource catalog and
//! renders the catalog into three artifacts: a Qt resource manifest (`.qrc`
//! XML), a UI form description (`.ui` XML), and MFC-compatible shim source
//! text. Parsing and emission are pure: the caller supplies the input lines
//! and writes the returned text wherever it wants.

pub mod generator;
pub mod parser;
pub mod pattern;
pub mod resource;
pub mod scan;
pub mod shim;

use vstd::prelude::*;

use crate::generator::qrc_text;
use crate::generator::ui_text;
use crate::generator::QrcEntryModel;
use crate::parser::spec_parse_at;
use crate::parser::trimmed_lines;
use crate::shim::shim_text;

verus! {

/// Re-running the whole pipeline on unchanged input produces byte-identical
/// artifacts: each stage's output is a function of its input alone. The
/// contracts of [`parser::parse_rc_file`], [`shim::render_shim`],
/// [`generator::create_qrc_file`] and [`generator::create_ui_file`] pin
/// every run's output to the spec values named here, so any two runs on the
/// same lines, mapping, dialog name and control list agree character for
/// character.
pub proof fn lemma_pipeline_idempotent(
    lines: Seq<String>,
    entries: Seq<QrcEntryModel>,
    name: Seq<char>,
    controls: Seq<Seq<char>>,
    shim1: Seq<char>,
    shim2: Seq<char>,
    qrc1: Seq<char>,
    qrc2: Seq<char>,
    ui1: Seq<char>,
    ui2: Seq<char>,
)
    requires
        shim1 == shim_text(spec_parse_at(trimmed_lines(lines), 0).catalog),
        shim2 == shim_text(spec_parse_at(trimmed_lines(lines), 0).catalog),
        qrc1 == qrc_text(entries),
        qrc2 == qrc_text(entries),
        ui1 == ui_text(name, controls),
        ui2 == ui_text(name, controls),
    ensures
        shim1 == shim2,
        qrc1 == qrc2,
        ui1 == ui2,
{
}

} // verus!
