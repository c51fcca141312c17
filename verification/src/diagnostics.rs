//! Turning the toolchain's JSON diagnostics into typed diagnostics.
//!
//! The build and lint commands emit one JSON object per stdout line. Every
//! line that parses as an object whose `reason` is `compiler-message`
//! carries a nested message with a severity, free text, an optional
//! structured code, and source spans; spans with missing fields are
//! skipped individually.

use vstd::prelude::*;
use vstd::string::StringExecFns;

use crate::json::{
    json_as_array, json_as_str, json_as_u64, json_get, json_model, json_of_text, model_get,
    parse_json, JsonModel,
};
use crate::results::{CompilerDiagnostic, DiagnosticLevel, DiagnosticSpan};
use crate::text::{chars_of, spec_has_prefix, spec_lines, split_lines, string_of};

verus! {

broadcast use vstd::string::group_string_axioms;

/// The mathematical content of a diagnostic span.
pub struct SpanView {
    pub file: Seq<char>,
    pub line_start: u32,
    pub line_end: u32,
    pub column_start: u32,
    pub column_end: u32,
    pub text: Option<Seq<char>>,
}

/// The mathematical content of a diagnostic.
pub struct DiagView {
    pub level: DiagnosticLevel,
    pub message: Seq<char>,
    pub code: Option<Seq<char>>,
    pub spans: Seq<SpanView>,
}

/// The content of one executable span record.
pub open spec fn span_view(sp: DiagnosticSpan) -> SpanView {
    SpanView {
        file: sp.file@,
        line_start: sp.line_start,
        line_end: sp.line_end,
        column_start: sp.column_start,
        column_end: sp.column_end,
        text: match sp.text {
            Some(t) => Some(t@),
            None => None,
        },
    }
}

/// The content of one executable diagnostic record.
pub open spec fn diag_view(d: CompilerDiagnostic) -> DiagView {
    DiagView {
        level: d.level,
        message: d.message@,
        code: match d.code {
            Some(c) => Some(c@),
            None => None,
        },
        spans: d.spans@.map_values(|sp: DiagnosticSpan| span_view(sp)),
    }
}

/// The contents of a list of executable diagnostics.
pub open spec fn diags_view(s: Seq<CompilerDiagnostic>) -> Seq<DiagView> {
    s.map_values(|d: CompilerDiagnostic| diag_view(d))
}

pub open spec fn model_str(m: Option<JsonModel>) -> Option<Seq<char>> {
    match m {
        Some(JsonModel::Str(s)) => Some(s),
        _ => None,
    }
}

pub open spec fn model_u64(m: Option<JsonModel>) -> Option<u64> {
    match m {
        Some(JsonModel::Num(o)) => o,
        _ => None,
    }
}

/// `u64` narrowed to `u32`, as the `as` cast narrows it.
pub open spec fn trunc32(x: u64) -> u32 {
    (x % 0x1_0000_0000) as u32
}

/// The nested `message` object of a line that reports a compiler message.
pub open spec fn line_message(line: Seq<char>) -> Option<JsonModel> {
    match json_of_text(line) {
        Some(m) => if model_str(model_get(m, "reason"@)) == Some("compiler-message"@) {
            model_get(m, "message"@)
        } else {
            None
        },
        None => None,
    }
}

/// The message's severity text, `note` when absent.
pub open spec fn msg_level(mm: JsonModel) -> Seq<char> {
    match model_str(model_get(mm, "level"@)) {
        Some(s) => s,
        None => "note"@,
    }
}

pub open spec fn level_of(s: Seq<char>) -> DiagnosticLevel {
    if s == "error"@ {
        DiagnosticLevel::Error
    } else if s == "warning"@ {
        DiagnosticLevel::Warning
    } else if s == "help"@ {
        DiagnosticLevel::Help
    } else {
        DiagnosticLevel::Note
    }
}

/// The message's free text, empty when absent.
pub open spec fn msg_text(mm: JsonModel) -> Seq<char> {
    match model_str(model_get(mm, "message"@)) {
        Some(s) => s,
        None => Seq::empty(),
    }
}

/// The message's structured code identifier, when present.
pub open spec fn msg_code(mm: JsonModel) -> Option<Seq<char>> {
    match model_get(mm, "code"@) {
        Some(c) => model_str(model_get(c, "code"@)),
        None => None,
    }
}

/// The covered source text of a span: the `text` of the first entry of
/// its `text` array.
pub open spec fn span_text(sm: JsonModel) -> Option<Seq<char>> {
    match model_get(sm, "text"@) {
        Some(JsonModel::Arr(a)) => if a.len() > 0 {
            model_str(model_get(a[0], "text"@))
        } else {
            None
        },
        _ => None,
    }
}

/// One span record; `None` when any positional field is missing, which
/// skips the span without invalidating the diagnostic.
pub open spec fn span_of(sm: JsonModel, with_text: bool) -> Option<SpanView> {
    let file = model_str(model_get(sm, "file_name"@));
    let ls = model_u64(model_get(sm, "line_start"@));
    let le = model_u64(model_get(sm, "line_end"@));
    let cs = model_u64(model_get(sm, "column_start"@));
    let ce = model_u64(model_get(sm, "column_end"@));
    if file is Some && ls is Some && le is Some && cs is Some && ce is Some {
        Some(
            SpanView {
                file: file->0,
                line_start: trunc32(ls->0),
                line_end: trunc32(le->0),
                column_start: trunc32(cs->0),
                column_end: trunc32(ce->0),
                text: if with_text {
                    span_text(sm)
                } else {
                    None
                },
            },
        )
    } else {
        None
    }
}

/// The valid spans of a span array, in order.
pub open spec fn spans_of(arr: Seq<JsonModel>, with_text: bool) -> Seq<SpanView>
    decreases arr.len(),
{
    if arr.len() == 0 {
        Seq::empty()
    } else {
        match span_of(arr[0], with_text) {
            Some(sp) => seq![sp] + spans_of(arr.drop_first(), with_text),
            None => spans_of(arr.drop_first(), with_text),
        }
    }
}

/// The span array of a message, empty when absent.
pub open spec fn msg_spans(mm: JsonModel, with_text: bool) -> Seq<SpanView> {
    match model_get(mm, "spans"@) {
        Some(JsonModel::Arr(a)) => spans_of(a, with_text),
        _ => Seq::empty(),
    }
}

/// The diagnostic of one line of build output, if the line carries one.
pub open spec fn cargo_diag(line: Seq<char>) -> Option<DiagView> {
    match line_message(line) {
        Some(mm) => Some(
            DiagView {
                level: level_of(msg_level(mm)),
                message: msg_text(mm),
                code: msg_code(mm),
                spans: msg_spans(mm, true),
            },
        ),
        None => None,
    }
}

/// The error diagnostics of the build output, in order.
pub open spec fn cargo_errors(lines: Seq<Seq<char>>) -> Seq<DiagView>
    decreases lines.len(),
{
    if lines.len() == 0 {
        Seq::empty()
    } else {
        let rest = cargo_errors(lines.drop_first());
        match cargo_diag(lines[0]) {
            Some(d) => if d.level == DiagnosticLevel::Error {
                seq![d] + rest
            } else {
                rest
            },
            None => rest,
        }
    }
}

/// The warning diagnostics of the build output, in order.
pub open spec fn cargo_warnings(lines: Seq<Seq<char>>) -> Seq<DiagView>
    decreases lines.len(),
{
    if lines.len() == 0 {
        Seq::empty()
    } else {
        let rest = cargo_warnings(lines.drop_first());
        match cargo_diag(lines[0]) {
            Some(d) => if d.level == DiagnosticLevel::Warning {
                seq![d] + rest
            } else {
                rest
            },
            None => rest,
        }
    }
}

/// The lint diagnostic of one line: a warning whose structured code lies
/// in the linter's own namespace; spans carry no source text.
pub open spec fn clippy_diag(line: Seq<char>) -> Option<DiagView> {
    match line_message(line) {
        Some(mm) => if msg_level(mm) == "warning"@ && (msg_code(mm) matches Some(c)
            && spec_has_prefix(c, "clippy::"@)) {
            Some(
                DiagView {
                    level: DiagnosticLevel::Warning,
                    message: msg_text(mm),
                    code: msg_code(mm),
                    spans: msg_spans(mm, false),
                },
            )
        } else {
            None
        },
        None => None,
    }
}

/// The lint warnings of the lint output, in order.
pub open spec fn clippy_warnings(lines: Seq<Seq<char>>) -> Seq<DiagView>
    decreases lines.len(),
{
    if lines.len() == 0 {
        Seq::empty()
    } else {
        let rest = clippy_warnings(lines.drop_first());
        match clippy_diag(lines[0]) {
            Some(d) => seq![d] + rest,
            None => rest,
        }
    }
}

/// Looks a string field up on a JSON object value.
fn get_str_field(v: &serde_json::Value, key: &str) -> (r: Option<String>)
    ensures
        match r {
            Some(s) => model_str(model_get(json_model(*v), key@)) == Some(s@),
            None => model_str(model_get(json_model(*v), key@)) is None,
        },
{
    match json_get(v, key) {
        Some(u) => match json_as_str(u) {
            Some(s) => Some(s.to_owned()),
            None => None,
        },
        None => None,
    }
}

/// Looks a numeric field up on a JSON object value.
fn get_u64_field(v: &serde_json::Value, key: &str) -> (r: Option<u64>)
    ensures
        r == model_u64(model_get(json_model(*v), key@)),
{
    match json_get(v, key) {
        Some(u) => json_as_u64(u),
        None => None,
    }
}

/// Builds one span record, skipping it when a positional field is absent.
fn span_from(sv: &serde_json::Value, with_text: bool) -> (r: Option<DiagnosticSpan>)
    ensures
        match r {
            Some(sp) => span_of(json_model(*sv), with_text) == Some(span_view(sp)),
            None => span_of(json_model(*sv), with_text) is None,
        },
{
    let file = get_str_field(sv, "file_name");
    let ls = get_u64_field(sv, "line_start");
    let le = get_u64_field(sv, "line_end");
    let cs = get_u64_field(sv, "column_start");
    let ce = get_u64_field(sv, "column_end");
    match (file, ls, le, cs, ce) {
        (Some(file), Some(ls), Some(le), Some(cs), Some(ce)) => {
            let text: Option<String> = if with_text {
                match json_get(sv, "text") {
                    Some(tv) => match json_as_array(tv) {
                        Some(arr) => if arr.len() > 0 {
                            proof {
                                assert(arr@.map_values(|x: serde_json::Value| json_model(x))[0]
                                    == json_model(arr@[0]));
                            }
                            match json_get(&arr[0], "text") {
                                Some(inner) => match json_as_str(inner) {
                                    Some(s) => Some(s.to_owned()),
                                    None => None,
                                },
                                None => None,
                            }
                        } else {
                            None
                        },
                        None => None,
                    },
                    None => None,
                }
            } else {
                None
            };
            Some(
                DiagnosticSpan {
                    file,
                    line_start: (ls % 0x1_0000_0000) as u32,
                    line_end: (le % 0x1_0000_0000) as u32,
                    column_start: (cs % 0x1_0000_0000) as u32,
                    column_end: (ce % 0x1_0000_0000) as u32,
                    text,
                },
            )
        },
        _ => None,
    }
}

/// Builds the span list of a message object.
fn spans_from(mm: &serde_json::Value, with_text: bool) -> (r: Vec<DiagnosticSpan>)
    ensures
        r@.map_values(|sp: DiagnosticSpan| span_view(sp)) == msg_spans(json_model(*mm), with_text),
{
    let mut out: Vec<DiagnosticSpan> = Vec::new();
    match json_get(mm, "spans") {
        Some(sv) => match json_as_array(sv) {
            Some(arr) => {
                let ghost amodel = arr@.map_values(|x: serde_json::Value| json_model(x));
                let mut i: usize = 0;
                proof {
                    assert(amodel.skip(0) =~= amodel);
                    assert(out@.map_values(|sp: DiagnosticSpan| span_view(sp)) + spans_of(
                        amodel,
                        with_text,
                    ) =~= spans_of(amodel, with_text));
                }
                while i < arr.len()
                    invariant
                        i <= arr@.len(),
                        amodel == arr@.map_values(|x: serde_json::Value| json_model(x)),
                        spans_of(amodel, with_text) == out@.map_values(
                            |sp: DiagnosticSpan| span_view(sp),
                        ) + spans_of(amodel.skip(i as int), with_text),
                    decreases arr@.len() - i,
                {
                    let ghost prev = out@.map_values(|sp: DiagnosticSpan| span_view(sp));
                    proof {
                        assert(amodel.skip(i as int)[0] == amodel[i as int]);
                        assert(amodel[i as int] == json_model(arr@[i as int]));
                        assert(amodel.skip(i as int).drop_first() =~= amodel.skip(i as int + 1));
                    }
                    match span_from(&arr[i], with_text) {
                        Some(sp) => {
                            out.push(sp);
                            proof {
                                assert(out@.map_values(|sp: DiagnosticSpan| span_view(sp)) =~~= prev
                                    + seq![span_view(sp)]);
                                assert(prev + (seq![span_view(sp)] + spans_of(
                                    amodel.skip(i as int + 1),
                                    with_text,
                                )) =~= (prev + seq![span_view(sp)]) + spans_of(
                                    amodel.skip(i as int + 1),
                                    with_text,
                                ));
                            }
                        },
                        None => {},
                    }
                    i = i + 1;
                }
                proof {
                    assert(amodel.skip(i as int) =~= Seq::<JsonModel>::empty());
                    assert(out@.map_values(|sp: DiagnosticSpan| span_view(sp)) + spans_of(
                        amodel.skip(i as int),
                        with_text,
                    ) =~= out@.map_values(|sp: DiagnosticSpan| span_view(sp)));
                }
            },
            None => {
                proof {
                    assert(out@.map_values(|sp: DiagnosticSpan| span_view(sp)) =~= Seq::<
                        SpanView,
                    >::empty());
                }
            },
        },
        None => {
            proof {
                assert(out@.map_values(|sp: DiagnosticSpan| span_view(sp)) =~= Seq::<
                    SpanView,
                >::empty());
            }
        },
    }
    out
}

/// The nested message object of a compiler-message line.
fn message_of_line(line: &Vec<char>) -> (r: Option<serde_json::Value>)
    ensures
        match r {
            Some(mm) => line_message(line@) == Some(json_model(mm)),
            None => line_message(line@) is None,
        },
{
    let text = string_of(line);
    match parse_json(text.as_str()) {
        Some(v) => {
            let is_msg = match json_get(&v, "reason") {
                Some(rv) => match json_as_str(rv) {
                    Some(s) => crate::text::chars_eq_str(&chars_of(s), "compiler-message"),
                    None => false,
                },
                None => false,
            };
            if is_msg {
                match json_get(&v, "message") {
                    Some(_) => {
                        // A `Value` cannot be handed out from behind the
                        // borrow; parse again and take the field owned.
                        take_message(text.as_str())
                    },
                    None => None,
                }
            } else {
                None
            }
        },
        None => None,
    }
}

/// Relies on `serde_json::from_str` and `Value::get`: parses the line
/// again and hands the `message` member out by value.
#[verifier::external_body]
fn take_message(s: &str) -> (r: Option<serde_json::Value>)
    ensures
        match r {
            Some(mm) => (json_of_text(s@) matches Some(m) && model_get(m, "message"@) == Some(
                json_model(mm),
            )),
            None => match json_of_text(s@) {
                Some(m) => model_get(m, "message"@) is None,
                None => true,
            },
        },
{
    let v: serde_json::Value = serde_json::from_str(s).ok()?;
    match v {
        serde_json::Value::Object(mut map) => map.remove("message"),
        _ => None,
    }
}

/// Builds the diagnostic of one build-output line.
fn cargo_diag_from_line(line: &Vec<char>) -> (r: Option<CompilerDiagnostic>)
    ensures
        match r {
            Some(d) => cargo_diag(line@) == Some(diag_view(d)),
            None => cargo_diag(line@) is None,
        },
{
    match message_of_line(line) {
        Some(mm) => {
            let level_s = match get_str_field(&mm, "level") {
                Some(s) => s,
                None => "note".to_owned(),
            };
            let lv = chars_of(level_s.as_str());
            let level = if crate::text::chars_eq_str(&lv, "error") {
                DiagnosticLevel::Error
            } else if crate::text::chars_eq_str(&lv, "warning") {
                DiagnosticLevel::Warning
            } else if crate::text::chars_eq_str(&lv, "help") {
                DiagnosticLevel::Help
            } else {
                DiagnosticLevel::Note
            };
            let message = match get_str_field(&mm, "message") {
                Some(s) => s,
                None => String::new(),
            };
            let code = match json_get(&mm, "code") {
                Some(cv) => get_str_field(cv, "code"),
                None => None,
            };
            let spans = spans_from(&mm, true);
            Some(CompilerDiagnostic { level, message, code, spans })
        },
        None => None,
    }
}

/// Parses the build command's JSON output into error and warning
/// diagnostics; notes and help messages are dropped.
pub fn parse_cargo_json_output(output: &str) -> (r: (
    Vec<CompilerDiagnostic>,
    Vec<CompilerDiagnostic>,
))
    ensures
        diags_view(r.0@) == cargo_errors(spec_lines(output@)),
        diags_view(r.1@) == cargo_warnings(spec_lines(output@)),
{
    let chars = chars_of(output);
    let lines = split_lines(&chars);
    let ghost ldv = lines.deep_view();
    let mut errors: Vec<CompilerDiagnostic> = Vec::new();
    let mut warnings: Vec<CompilerDiagnostic> = Vec::new();
    let mut i: usize = 0;
    proof {
        assert(ldv.skip(0) =~= ldv);
        assert(diags_view(errors@) + cargo_errors(ldv) =~= cargo_errors(ldv));
        assert(diags_view(warnings@) + cargo_warnings(ldv) =~= cargo_warnings(ldv));
    }
    while i < lines.len()
        invariant
            i <= ldv.len(),
            ldv == lines.deep_view(),
            cargo_errors(ldv) == diags_view(errors@) + cargo_errors(ldv.skip(i as int)),
            cargo_warnings(ldv) == diags_view(warnings@) + cargo_warnings(ldv.skip(i as int)),
        decreases ldv.len() - i,
    {
        let line = &lines[i];
        let ghost preve = diags_view(errors@);
        let ghost prevw = diags_view(warnings@);
        proof {
            assert(lines@[i as int].deep_view() =~= lines@[i as int]@);
            assert(ldv[i as int] == line@);
            assert(ldv.skip(i as int)[0] == ldv[i as int]);
            assert(ldv.skip(i as int).drop_first() =~= ldv.skip(i as int + 1));
        }
        match cargo_diag_from_line(line) {
            Some(d) => {
                match d.level {
                    DiagnosticLevel::Error => {
                        let ghost dv = diag_view(d);
                        errors.push(d);
                        proof {
                            assert(diags_view(errors@) =~~= preve + seq![dv]);
                            assert(preve + (seq![dv] + cargo_errors(ldv.skip(i as int + 1))) =~= (
                            preve + seq![dv]) + cargo_errors(ldv.skip(i as int + 1)));
                        }
                    },
                    DiagnosticLevel::Warning => {
                        let ghost dv = diag_view(d);
                        warnings.push(d);
                        proof {
                            assert(diags_view(warnings@) =~~= prevw + seq![dv]);
                            assert(prevw + (seq![dv] + cargo_warnings(ldv.skip(i as int + 1))) =~= (
                            prevw + seq![dv]) + cargo_warnings(ldv.skip(i as int + 1)));
                        }
                    },
                    _ => {},
                }
            },
            None => {},
        }
        i = i + 1;
    }
    proof {
        assert(ldv.skip(i as int) =~= Seq::<Seq<char>>::empty());
        assert(diags_view(errors@) + cargo_errors(ldv.skip(i as int)) =~= diags_view(errors@));
        assert(diags_view(warnings@) + cargo_warnings(ldv.skip(i as int)) =~= diags_view(
            warnings@,
        ));
    }
    (errors, warnings)
}

/// Builds the lint diagnostic of one lint-output line.
fn clippy_diag_from_line(line: &Vec<char>) -> (r: Option<CompilerDiagnostic>)
    ensures
        match r {
            Some(d) => clippy_diag(line@) == Some(diag_view(d)),
            None => clippy_diag(line@) is None,
        },
{
    match message_of_line(line) {
        Some(mm) => {
            match get_str_field(&mm, "level") {
                Some(s) => {
                    if !crate::text::chars_eq_str(&chars_of(s.as_str()), "warning") {
                        return None;
                    }
                },
                None => {
                    proof {
                        reveal_strlit("note");
                        reveal_strlit("warning");
                        // The literals differ already in length.
                        assert("note"@.len() == 4);
                        assert("warning"@.len() == 7);
                        assert("note"@ != "warning"@);
                    }
                    return None;
                },
            }
            let code = match json_get(&mm, "code") {
                Some(cv) => get_str_field(cv, "code"),
                None => None,
            };
            let code = match code {
                Some(c) => {
                    let cv = chars_of(c.as_str());
                    if crate::text::has_prefix(&cv, "clippy::") {
                        Some(c)
                    } else {
                        return None;
                    }
                },
                None => {
                    return None;
                },
            };
            let message = match get_str_field(&mm, "message") {
                Some(s) => s,
                None => String::new(),
            };
            let spans = spans_from(&mm, false);
            Some(CompilerDiagnostic { level: DiagnosticLevel::Warning, message, code, spans })
        },
        None => None,
    }
}

/// Parses the linter's JSON output, keeping only warnings whose
/// structured code begins with the linter's own namespace prefix.
pub fn parse_clippy_output(output: &str) -> (r: Vec<CompilerDiagnostic>)
    ensures
        diags_view(r@) == clippy_warnings(spec_lines(output@)),
{
    let chars = chars_of(output);
    let lines = split_lines(&chars);
    let ghost ldv = lines.deep_view();
    let mut warnings: Vec<CompilerDiagnostic> = Vec::new();
    let mut i: usize = 0;
    proof {
        assert(ldv.skip(0) =~= ldv);
        assert(diags_view(warnings@) + clippy_warnings(ldv) =~= clippy_warnings(ldv));
    }
    while i < lines.len()
        invariant
            i <= ldv.len(),
            ldv == lines.deep_view(),
            clippy_warnings(ldv) == diags_view(warnings@) + clippy_warnings(ldv.skip(i as int)),
        decreases ldv.len() - i,
    {
        let line = &lines[i];
        let ghost prevw = diags_view(warnings@);
        proof {
            assert(lines@[i as int].deep_view() =~= lines@[i as int]@);
            assert(ldv[i as int] == line@);
            assert(ldv.skip(i as int)[0] == ldv[i as int]);
            assert(ldv.skip(i as int).drop_first() =~= ldv.skip(i as int + 1));
        }
        match clippy_diag_from_line(line) {
            Some(d) => {
                let ghost dv = diag_view(d);
                warnings.push(d);
                proof {
                    assert(diags_view(warnings@) =~~= prevw + seq![dv]);
                    assert(prevw + (seq![dv] + clippy_warnings(ldv.skip(i as int + 1))) =~= (prevw
                        + seq![dv]) + clippy_warnings(ldv.skip(i as int + 1)));
                }
            },
            None => {},
        }
        i = i + 1;
    }
    proof {
        assert(ldv.skip(i as int) =~= Seq::<Seq<char>>::empty());
        assert(diags_view(warnings@) + clippy_warnings(ldv.skip(i as int)) =~= diags_view(
            warnings@,
        ));
    }
    warnings
}

} // verus!
