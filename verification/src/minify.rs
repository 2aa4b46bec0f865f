//! Minification of mJS scripts with SWC.
//!
//! Output is targeted at ES5 because the on-device Mongoose JS engine
//! doesn't support arrow functions, template literals, classes,
//! destructuring, etc. — features the minifier would otherwise emit
//! when collapsing expressions.
//!
//! Each SWC step (source map, parse, error location, marks, resolver, paren
//! remover, optimizer, fixer, code generator) is one trusted call; the order
//! of the steps, the located error texts and the failure messages are
//! verified here.

use std::sync::Arc;

use swc_common::sync::Lrc;
use swc_common::{FileName, Globals, Spanned, GLOBALS};
use swc_ecma_ast::EsVersion;
use swc_ecma_codegen::text_writer::{omit_trailing_semi, JsWriter};
use swc_ecma_codegen::{Config as CodegenConfig, Emitter};
use swc_ecma_minifier::optimize;
use swc_ecma_minifier::option::{
    CompressOptions, ExtraOptions, MangleOptions, MinifyOptions, SimpleMangleCache,
};
use swc_ecma_parser::{parse_file_as_script, Syntax};
use swc_ecma_transforms_base::fixer::{fixer, paren_remover};
use swc_ecma_transforms_base::resolver;
use vstd::prelude::*;
use vstd::string::StringExecFns;
use vstd::utf8::*;
use crate::commands::string_views;
use crate::text::{decimal, push_decimal};

verus! {

// ── SWC's types ────────────────────────────────────────────────────────

/// SWC's map of source files, declared so that it can stand in signatures.
#[verifier::external_type_specification]
#[verifier::external_body]
pub struct ExSourceMap(swc_common::SourceMap);

/// One source file held by a source map.
#[verifier::external_type_specification]
#[verifier::external_body]
pub struct ExSourceFile(swc_common::SourceFile);

/// A parsed program.
#[verifier::external_type_specification]
#[verifier::external_body]
pub struct ExProgram(swc_ecma_ast::Program);

/// A hygiene mark.
#[verifier::external_type_specification]
#[verifier::external_body]
pub struct ExMark(swc_common::Mark);

/// What the parser reported about a file: its fatal error, if it gave
/// up, and the errors it recovered from, in order. (The parser's error type
/// shares its name with this crate's [`crate::Error`], so it is held here
/// rather than declared on its own.)
#[verifier::external_body]
pub struct ParseReport {
    fatal: Option<swc_ecma_parser::error::Error>,
    recovered: Vec<swc_ecma_parser::error::Error>,
}

/// Whether the parser gave up.
pub uninterp spec fn report_fatal(r: ParseReport) -> bool;

/// How many errors the parser recovered from.
pub uninterp spec fn report_recovered(r: ParseReport) -> nat;

// ── SWC's steps ────────────────────────────────────────────────────────

/// A new, empty source map (`SourceMap::default`).
#[verifier::external_body]
fn swc_source_map() -> Lrc<swc_common::SourceMap> {
    Lrc::new(swc_common::SourceMap::default())
}

/// Adds `source` to `cm` as the file `source_name`
/// (`SourceMap::new_source_file`).
#[verifier::external_body]
fn swc_add_source(cm: &Lrc<swc_common::SourceMap>, source: &str, source_name: &str) -> Lrc<
    swc_common::SourceFile,
> {
    cm.new_source_file(Lrc::new(FileName::Custom(source_name.into())), source.to_string())
}

/// Parses a file as an ES5 script (`parse_file_as_script`): the program,
/// unless the parser gave up, and what the parser reported.
#[verifier::external_body]
fn swc_parse_script(fm: &Lrc<swc_common::SourceFile>) -> (r: (
    Option<swc_ecma_ast::Program>,
    ParseReport,
))
    ensures
        r.0 is Some <==> !report_fatal(r.1),
{
    let mut recovered = Vec::new();
    let r = parse_file_as_script(fm, Syntax::Es(Default::default()), EsVersion::Es5, None, &mut recovered);
    match r {
        Ok(s) => (Some(swc_ecma_ast::Program::Script(s)), ParseReport { fatal: None, recovered }),
        Err(e) => (None, ParseReport { fatal: Some(e), recovered }),
    }
}

/// The number of errors the parser recovered from (`Vec::len`).
#[verifier::external_body]
fn swc_recovered_len(rep: &ParseReport) -> (n: usize)
    ensures
        n == report_recovered(*rep),
{
    rep.recovered.len()
}

/// Where the parser's fatal error stands (`SourceMap::lookup_char_pos` of
/// the start of its span) and what it says (`SyntaxError::msg`): the file
/// name, the line (counted from 1), the column (counted from 0) and the
/// message.
#[verifier::external_body]
fn swc_fatal_position(cm: &Lrc<swc_common::SourceMap>, rep: &ParseReport) -> (
    String,
    usize,
    usize,
    String,
)
    requires
        report_fatal(*rep),
{
    let e = rep.fatal.as_ref().unwrap();
    let loc = cm.lookup_char_pos(e.span().lo);
    (loc.file.name.to_string(), loc.line, loc.col.0, e.kind().msg().to_string())
}

/// Where the `i`-th error the parser recovered from stands, and what it
/// says, as for [`swc_fatal_position`].
#[verifier::external_body]
fn swc_recovered_position(cm: &Lrc<swc_common::SourceMap>, rep: &ParseReport, i: usize) -> (
    String,
    usize,
    usize,
    String,
)
    requires
        i < report_recovered(*rep),
{
    let e = &rep.recovered[i];
    let loc = cm.lookup_char_pos(e.span().lo);
    (loc.file.name.to_string(), loc.line, loc.col.0, e.kind().msg().to_string())
}

/// A fresh hygiene mark (`Mark::new`).
#[verifier::external_body]
fn swc_mark() -> swc_common::Mark {
    swc_common::Mark::new()
}

/// Resolves the program's identifiers (`resolver`, not in TypeScript mode).
#[verifier::external_body]
fn swc_resolver(
    p: swc_ecma_ast::Program,
    unresolved_mark: swc_common::Mark,
    top_level_mark: swc_common::Mark,
) -> swc_ecma_ast::Program {
    p.apply(resolver(unresolved_mark, top_level_mark, false))
}

/// Removes redundant parentheses (`paren_remover`).
#[verifier::external_body]
fn swc_paren_remover(p: swc_ecma_ast::Program) -> swc_ecma_ast::Program {
    p.apply(paren_remover(None))
}

/// Compresses and mangles the program for ES5 (`optimize`): no arrow
/// functions, top-level names mangled.
#[verifier::external_body]
fn swc_optimize(
    p: swc_ecma_ast::Program,
    cm: &Lrc<swc_common::SourceMap>,
    unresolved_mark: swc_common::Mark,
    top_level_mark: swc_common::Mark,
) -> swc_ecma_ast::Program {
    let compress = CompressOptions { arrows: false, ecma: EsVersion::Es5, ..Default::default() };
    let mangle = MangleOptions { top_level: Some(true), ..Default::default() };
    let options = MinifyOptions { compress: Some(compress), mangle: Some(mangle), ..Default::default() };
    let extra = ExtraOptions {
        unresolved_mark,
        top_level_mark,
        mangle_name_cache: Some(Arc::new(SimpleMangleCache::default())),
    };
    optimize(p, cm.clone(), None, None, &options, &extra)
}

/// Inserts the parentheses the output needs (`fixer`).
#[verifier::external_body]
fn swc_fixer(p: swc_ecma_ast::Program) -> swc_ecma_ast::Program {
    p.apply(fixer(None))
}

/// Emits the program as minified ES5 text without a trailing semicolon
/// (`Emitter::emit_program`): its bytes, or the code generator's error.
#[verifier::external_body]
fn swc_emit(p: &swc_ecma_ast::Program, cm: &Lrc<swc_common::SourceMap>) -> Result<Vec<u8>, String> {
    let mut buf = Vec::new();
    let done = {
        let cfg = CodegenConfig::default().with_minify(true).with_target(EsVersion::Es5);
        let wr = omit_trailing_semi(JsWriter::new(cm.clone(), "\n", &mut buf, None));
        let mut emitter = Emitter { cfg, cm: cm.clone(), comments: None, wr };
        emitter.emit_program(p)
    };
    match done {
        Ok(()) => Ok(buf),
        Err(e) => Err(e.to_string()),
    }
}

/// The text of UTF-8 bytes (`String::from_utf8`), or the error's message.
#[verifier::external_body]
fn string_from_utf8(bytes: Vec<u8>) -> (r: Result<String, String>)
    ensures
        r is Ok <==> valid_utf8(bytes@),
        r matches Ok(s) ==> s@ == decode_utf8(bytes@),
{
    match String::from_utf8(bytes) {
        Ok(s) => Ok(s),
        Err(e) => Err(e.to_string()),
    }
}

/// Runs [`minify_steps`] in a fresh scope of SWC's globals (`GLOBALS.set`),
/// which the marks and the optimizer need; the result is what the steps
/// give.
#[verifier::external_body]
fn swc_with_globals(source: &str, source_name: &str) -> (r: Result<String, String>)
    ensures
        minify_outcome(r),
{
    GLOBALS.set(&Globals::new(), || minify_steps(source, source_name))
}

// ── Verified steps ─────────────────────────────────────────────────────

/// The located text of a parse error: `file:line:column: message`, with the
/// column counted from 1.
pub open spec fn located_text(file: Seq<char>, line: nat, col: nat, msg: Seq<char>) -> Seq<char> {
    file + ":"@ + decimal(line) + ":"@ + decimal(col + 1) + ": "@ + msg
}

/// Appends the decimal text of `n + 1`.
fn push_decimal_successor(s: &mut String, n: u64)
    ensures
        final(s)@ == old(s)@ + decimal((n + 1) as nat),
{
    if n < u64::MAX {
        push_decimal(s, n + 1);
    } else {
        let q: u64 = 1844674407370955161;
        push_decimal(s, q);
        s.append("6");
        proof {
            reveal_strlit("6");
            assert(n + 1 == 10 * q + 6);
            assert(decimal((n + 1) as nat) == decimal(q as nat).push(crate::text::digit_char(6)));
        }
        assert(final(s)@ =~= old(s)@ + decimal((n + 1) as nat));
    }
}

/// `file:line:column: message` for a parse error's position.
pub fn located(file: String, line: usize, col: usize, msg: String) -> (r: String)
    ensures
        r@ == located_text(file@, line as nat, col as nat, msg@),
{
    let mut s = file;
    s.append(":");
    push_decimal(&mut s, line as u64);
    s.append(":");
    push_decimal_successor(&mut s, col as u64);
    s.append(": ");
    s.append(msg.as_str());
    proof {
        reveal_strlit(":");
        reveal_strlit(": ");
    }
    s
}

/// Texts joined with the text `sep` between them.
pub open spec fn joined_text(parts: Seq<Seq<char>>, sep: Seq<char>) -> Seq<char>
    decreases parts.len(),
{
    if parts.len() == 0 {
        Seq::empty()
    } else if parts.len() == 1 {
        parts[0]
    } else {
        joined_text(parts.drop_last(), sep) + sep + parts.last()
    }
}

fn join_strings(parts: &Vec<String>, sep: &str) -> (r: String)
    ensures
        r@ == joined_text(string_views(parts@), sep@),
{
    let mut out = String::new();
    let mut i: usize = 0;
    assert(string_views(parts@).take(0) =~= Seq::<Seq<char>>::empty());
    while i < parts.len()
        invariant
            i <= parts@.len(),
            out@ == joined_text(string_views(parts@).take(i as int), sep@),
        decreases parts@.len() - i,
    {
        if i > 0 {
            out.append(sep);
        }
        out.append(parts[i].as_str());
        assert(string_views(parts@).take(i + 1).drop_last() =~= string_views(parts@).take(i as int));
        assert(out@ =~= joined_text(string_views(parts@).take(i + 1), sep@));
        i = i + 1;
    }
    assert(string_views(parts@).take(i as int) =~= string_views(parts@));
    out
}

/// What a script parse reports as a failure: the fatal parse error as
/// `parse error: <e>`, or else the errors the parser recovered from as
/// `parse errors: <e1>; <e2>; ...`; nothing when the parse was clean.
pub open spec fn parse_failure_text(fatal: Option<Seq<char>>, errors: Seq<Seq<char>>) -> Option<
    Seq<char>,
> {
    match fatal {
        Some(f) => Some("parse error: "@ + f),
        None => if errors.len() == 0 {
            None
        } else {
            Some("parse errors: "@ + joined_text(errors, "; "@))
        },
    }
}

/// The failure message of a script parse, from the parser's fatal error
/// (if any) and the errors it recovered from, each already located as
/// `file:line:col: message`.
pub fn parse_failure(fatal: Option<String>, errors: &Vec<String>) -> (r: Option<String>)
    ensures
        match parse_failure_text(
            match fatal {
                Some(f) => Some(f@),
                None => None,
            },
            string_views(errors@),
        ) {
            Some(t) => r matches Some(m) && m@ == t,
            None => r is None,
        },
{
    match fatal {
        Some(f) => {
            let mut m = String::from_str("parse error: ");
            m.append(f.as_str());
            Some(m)
        },
        None => {
            if errors.len() == 0 {
                None
            } else {
                let mut m = String::from_str("parse errors: ");
                let j = join_strings(errors, "; ");
                m.append(j.as_str());
                Some(m)
            }
        },
    }
}

/// The failure message of the code generator: `codegen error: <detail>`.
pub fn codegen_failure(detail: &str) -> (r: String)
    ensures
        r@ == "codegen error: "@ + detail@,
{
    let mut m = String::from_str("codegen error: ");
    m.append(detail);
    m
}

/// The message for non-UTF-8 output of the code generator.
pub open spec fn non_utf8_text(detail: Seq<char>) -> Seq<char> {
    "non-UTF8 codegen output: "@ + detail
}

/// `non-UTF8 codegen output: <detail>`.
pub fn non_utf8_failure(detail: &str) -> (r: String)
    ensures
        r@ == non_utf8_text(detail@),
{
    let mut m = String::from_str("non-UTF8 codegen output: ");
    m.append(detail);
    m
}

/// What the minifier gives back, whatever SWC reports: the minified text,
/// or the failure of the parse (the fatal error, or else the errors the
/// parser recovered from, each located), of the code generator, or of the
/// text's encoding.
pub open spec fn minify_outcome(r: Result<String, String>) -> bool {
    match r {
        Ok(_) => true,
        Err(m) => {
            ||| exists|fatal: Option<Seq<char>>, errors: Seq<Seq<char>>|
                parse_failure_text(fatal, errors) == Some(m@)
            ||| exists|d: Seq<char>| m@ == "codegen error: "@ + d
            ||| exists|d: Seq<char>| m@ == non_utf8_text(d)
        },
    }
}

fn locate(cm: &Lrc<swc_common::SourceMap>, rep: &ParseReport, which: Option<usize>) -> String
    requires
        which is None ==> report_fatal(*rep),
        which matches Some(i) ==> i < report_recovered(*rep),
{
    let (file, line, col, msg) = match which {
        None => swc_fatal_position(cm, rep),
        Some(i) => swc_recovered_position(cm, rep, i),
    };
    located(file, line, col, msg)
}

/// The minification steps: parse; stop on a parse failure; resolve, drop
/// redundant parentheses, optimize, fix and emit; stop on a code generator
/// failure; the emitted bytes as text.
fn minify_steps(source: &str, source_name: &str) -> (r: Result<String, String>)
    ensures
        minify_outcome(r),
{
    let cm = swc_source_map();
    let fm = swc_add_source(&cm, source, source_name);
    let (parsed, report) = swc_parse_script(&fm);
    let fatal = match &parsed {
        Some(_) => None,
        None => Some(locate(&cm, &report, None)),
    };
    let count = swc_recovered_len(&report);
    let mut recovered: Vec<String> = Vec::new();
    let mut i: usize = 0;
    while i < count
        invariant
            i <= count,
            count == report_recovered(report),
        decreases count - i,
    {
        recovered.push(locate(&cm, &report, Some(i)));
        i = i + 1;
    }
    let ghost fatal_text: Option<Seq<char>> = match &fatal {
        Some(f) => Some(f@),
        None => None,
    };
    let is_fatal = fatal.is_some();
    match parse_failure(fatal, &recovered) {
        Some(m) => {
            assert(parse_failure_text(fatal_text, string_views(recovered@)) == Some(m@));
            return Err(m);
        },
        None => {},
    }
    let program = match parsed {
        Some(p) => p,
        None => {
            assert(!is_fatal);
            assert(false);
            return Err(String::new());
        },
    };
    let unresolved_mark = swc_mark();
    let top_level_mark = swc_mark();
    let p = swc_resolver(program, unresolved_mark, top_level_mark);
    let p = swc_paren_remover(p);
    let p = swc_optimize(p, &cm, unresolved_mark, top_level_mark);
    let p = swc_fixer(p);
    match swc_emit(&p, &cm) {
        Err(e) => {
            let m = codegen_failure(e.as_str());
            assert(m@ == "codegen error: "@ + e@);
            Err(m)
        },
        Ok(bytes) => match string_from_utf8(bytes) {
            Ok(s) => Ok(s),
            Err(e) => {
                let m = non_utf8_failure(e.as_str());
                Err(m)
            },
        },
    }
}

/// Minifies a JS source text for the device; `source_name` labels the
/// located parse errors. The result is the minified text, or the failure
/// message: `parse error: <e>` for a fatal parse error, `parse errors: <e1>;
/// <e2>` for errors the parser recovered from, `codegen error: <e>` or
/// `non-UTF8 codegen output: <e>`.
pub fn minify(source: &str, source_name: &str) -> (r: Result<String, String>)
    ensures
        minify_outcome(r),
{
    swc_with_globals(source, source_name)
}

} // verus!
