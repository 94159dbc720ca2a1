//! The XML emitters: the resource manifest (`.qrc`) and the UI form (`.ui`).
//!
//! Both artifacts are rendered as text, specified character by character;
//! character data is escaped so the documents stay well-formed.

use vstd::prelude::*;

use crate::pattern::match_control;
use crate::pattern::spec_match_control;
use crate::pattern::ControlModel;
use crate::resource::strs_view;
use crate::scan::append_char_of;

verus! {

/// The escaped form of one character of XML character data.
pub open spec fn esc_char(c: char) -> Seq<char> {
    if c == '&' {
        "&amp;"@
    } else if c == '<' {
        "&lt;"@
    } else if c == '>' {
        "&gt;"@
    } else {
        seq![c]
    }
}

/// XML character data: every `&`, `<` and `>` replaced by its entity.
pub open spec fn xml_escaped(s: Seq<char>) -> Seq<char>
    decreases s.len(),
{
    if s.len() == 0 {
        Seq::empty()
    } else {
        esc_char(s.first()) + xml_escaped(s.drop_first())
    }
}

/// Escape a string for use as XML character data.
pub fn xml_escape(s: &str) -> (r: String)
    ensures
        r@ == xml_escaped(s@),
{
    let n = s.unicode_len();
    let mut out = String::new();
    proof {
        assert(s@.skip(0) =~= s@);
        assert(Seq::<char>::empty() + xml_escaped(s@) =~= xml_escaped(s@));
    }
    let mut i: usize = 0;
    while i < n
        invariant
            0 <= i <= n,
            n == s@.len(),
            xml_escaped(s@) =~= out@ + xml_escaped(s@.skip(i as int)),
        decreases n - i,
    {
        let ghost oldout = out@;
        let c = s.get_char(i);
        if c == '&' {
            out.append("&amp;");
        } else if c == '<' {
            out.append("&lt;");
        } else if c == '>' {
            out.append("&gt;");
        } else {
            append_char_of(&mut out, s, i);
            proof {
                assert(oldout.push(s@[i as int]) =~= oldout + seq![s@[i as int]]);
            }
        }
        proof {
            assert(s@.skip(i as int).first() == s@[i as int]);
            assert(s@.skip(i as int).drop_first() =~= s@.skip(i as int + 1));
            assert(out@ =~= oldout + esc_char(s@[i as int]));
            assert(xml_escaped(s@) =~= out@ + xml_escaped(s@.skip(i as int + 1)));
        }
        i = i + 1;
    }
    proof {
        assert(s@.skip(n as int).len() == 0);
        assert(out@ + xml_escaped(s@.skip(n as int)) =~= out@);
    }
    out
}

/// Ghost form of one resource-manifest entry.
pub struct QrcEntryModel {
    pub name: Seq<char>,
    pub path: Seq<char>,
}

/// One entry of the resource manifest: a logical name and a file path. Only
/// the path appears in the emitted document.
pub struct QrcEntry {
    pub name: String,
    pub path: String,
}

impl View for QrcEntry {
    type V = QrcEntryModel;

    open spec fn view(&self) -> QrcEntryModel {
        QrcEntryModel { name: self.name@, path: self.path@ }
    }
}

/// The `file` element emitted for one manifest entry.
pub open spec fn qrc_file_line(e: QrcEntryModel) -> Seq<char> {
    "    <file>"@ + xml_escaped(e.path) + "</file>\n"@
}

pub open spec fn qrc_files_text(es: Seq<QrcEntryModel>) -> Seq<char>
    decreases es.len(),
{
    if es.len() == 0 {
        Seq::empty()
    } else {
        qrc_file_line(es.first()) + qrc_files_text(es.drop_first())
    }
}

/// The whole resource manifest: an `RCC` root holding one `qresource` group
/// mounted at `/`, holding one `file` element per entry, in the caller's
/// order. Callers needing stable output must supply entries pre-sorted.
pub open spec fn qrc_text(es: Seq<QrcEntryModel>) -> Seq<char> {
    "<RCC>\n  <qresource prefix=\"/\">\n"@ + qrc_files_text(es) + "  </qresource>\n</RCC>\n"@
}

/// Render the resource manifest for a mapping of logical names to paths.
pub fn create_qrc_file(resources: &Vec<QrcEntry>) -> (r: String)
    ensures
        r@ == qrc_text(resources@.map_values(|e: QrcEntry| e@)),
{
    let ghost es = resources@.map_values(|e: QrcEntry| e@);
    let mut out = String::from_str("<RCC>\n  <qresource prefix=\"/\">\n");
    let ghost header = out@;
    let n = resources.len();
    proof {
        assert(es.skip(0) =~= es);
        assert(header + qrc_files_text(es) =~= header + qrc_files_text(es.skip(0)));
    }
    let mut k: usize = 0;
    while k < n
        invariant
            0 <= k <= n,
            n == resources@.len(),
            es == resources@.map_values(|e: QrcEntry| e@),
            es.len() == n,
            header == "<RCC>\n  <qresource prefix=\"/\">\n"@,
            header + qrc_files_text(es) =~= out@ + qrc_files_text(es.skip(k as int)),
        decreases n - k,
    {
        let ghost oldout = out@;
        let e = &resources[k];
        out.append("    <file>");
        let escaped = xml_escape(e.path.as_str());
        out.append(escaped.as_str());
        out.append("</file>\n");
        proof {
            assert(es[k as int] == resources@[k as int]@);
            assert(es.skip(k as int).drop_first() =~= es.skip(k as int + 1));
            assert(es.skip(k as int).first() == es[k as int]);
            assert(out@ =~= oldout + qrc_file_line(es[k as int]));
            assert(header + qrc_files_text(es) =~= out@ + qrc_files_text(es.skip(k as int + 1)));
        }
        k = k + 1;
    }
    proof {
        assert(es.skip(n as int).len() == 0);
        assert(out@ + qrc_files_text(es.skip(n as int)) =~= out@);
        assert(out@ =~= header + qrc_files_text(es));
    }
    out.append("  </qresource>\n</RCC>\n");
    out
}

/// The push-button widget emitted for one matching control line.
pub open spec fn ui_widget_text(c: ControlModel) -> Seq<char> {
    "    <widget class=\"QPushButton\" name=\"button_"@ + c.id
        + "\">\n      <property name=\"geometry\">\n        <rect>\n          <x>"@ + c.x
        + "</x>\n          <y>"@ + c.y + "</y>\n          <width>"@ + c.width
        + "</width>\n          <height>"@ + c.height
        + "</height>\n        </rect>\n      </property>\n      <property name=\"text\">"@
        + xml_escaped(c.text) + "</property>\n    </widget>\n"@
}

/// The widgets emitted for a list of raw control lines: one per line that
/// matches the control pattern; the others are skipped.
pub open spec fn ui_widgets_text(controls: Seq<Seq<char>>) -> Seq<char>
    decreases controls.len(),
{
    if controls.len() == 0 {
        Seq::empty()
    } else {
        (match spec_match_control(controls.first()) {
            Some(c) => ui_widget_text(c),
            None => Seq::empty(),
        }) + ui_widgets_text(controls.drop_first())
    }
}

/// The whole UI form: a `ui` root with the dialog name and one container
/// widget of fixed default geometry, holding the button widgets.
pub open spec fn ui_text(name: Seq<char>, controls: Seq<Seq<char>>) -> Seq<char> {
    "<ui version=\"4.0\">\n  <class>"@ + xml_escaped(name)
        + "</class>\n  <widget class=\"QWidget\" name=\""@ + name
        + "\">\n    <property name=\"geometry\">\n      <rect>\n        <x>0</x>\n        <y>0</y>\n        <width>400</width>\n        <height>300</height>\n      </rect>\n    </property>\n"@
        + ui_widgets_text(controls) + "  </widget>\n</ui>\n"@
}

/// Render the UI form for a dialog name and its raw control lines.
pub fn create_ui_file(dialog_name: &str, controls: &Vec<String>) -> (r: String)
    ensures
        r@ == ui_text(dialog_name@, strs_view(controls@)),
{
    let ghost cs = strs_view(controls@);
    let mut out = String::from_str("<ui version=\"4.0\">\n  <class>");
    let escaped_name = xml_escape(dialog_name);
    out.append(escaped_name.as_str());
    out.append("</class>\n  <widget class=\"QWidget\" name=\"");
    out.append(dialog_name);
    out.append(
        "\">\n    <property name=\"geometry\">\n      <rect>\n        <x>0</x>\n        <y>0</y>\n        <width>400</width>\n        <height>300</height>\n      </rect>\n    </property>\n",
    );
    let ghost header = out@;
    let n = controls.len();
    proof {
        assert(cs.skip(0) =~= cs);
        assert(header + ui_widgets_text(cs) =~= header + ui_widgets_text(cs.skip(0)));
    }
    let mut k: usize = 0;
    while k < n
        invariant
            0 <= k <= n,
            n == controls@.len(),
            cs == strs_view(controls@),
            cs.len() == n,
            header + ui_widgets_text(cs) =~= out@ + ui_widgets_text(cs.skip(k as int)),
        decreases n - k,
    {
        let ghost oldout = out@;
        proof {
            assert(cs[k as int] == controls@[k as int]@);
            assert(cs.skip(k as int).drop_first() =~= cs.skip(k as int + 1));
            assert(cs.skip(k as int).first() == cs[k as int]);
        }
        if let Some(c) = match_control(controls[k].as_str()) {
            out.append("    <widget class=\"QPushButton\" name=\"button_");
            out.append(c.id.as_str());
            out.append("\">\n      <property name=\"geometry\">\n        <rect>\n          <x>");
            out.append(c.x.as_str());
            out.append("</x>\n          <y>");
            out.append(c.y.as_str());
            out.append("</y>\n          <width>");
            out.append(c.width.as_str());
            out.append("</width>\n          <height>");
            out.append(c.height.as_str());
            out.append("</height>\n        </rect>\n      </property>\n      <property name=\"text\">");
            let escaped = xml_escape(c.text.as_str());
            out.append(escaped.as_str());
            out.append("</property>\n    </widget>\n");
            proof {
                assert(out@ =~= oldout + ui_widget_text(c@));
            }
        }
        proof {
            assert(header + ui_widgets_text(cs) =~= out@ + ui_widgets_text(cs.skip(k as int + 1)));
        }
        k = k + 1;
    }
    proof {
        assert(cs.skip(n as int).len() == 0);
        assert(out@ + ui_widgets_text(cs.skip(n as int)) =~= out@);
        assert(out@ =~= header + ui_widgets_text(cs));
    }
    out.append("  </widget>\n</ui>\n");
    out
}

} // verus!
