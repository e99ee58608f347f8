//! The fault report record: construction from captured frames, serialization
//! to the persisted text format, a parser for that format, the proof that
//! parsing inverts serialization, and the logic that decides where a report
//! is persisted.

use vstd::prelude::*;
use vstd::string::StringExecFns;
use crate::codec::{
    escape, expect, consume_str, parse_field as spec_parse_field, field_str,
    lemma_consume_escaped, lemma_consume_in_range, lemma_skip_concat, push_escaped,
    expect_lit, consume_exec, chars_eq_lit,
};
use crate::text::{push_str_chars, chars_to_string, str_to_chars};
use crate::trace::{Frame, FrameView, trace_str, visible_frames, render_trace, capture_frames,
    SKIP_FRAMES};

verus! {

/// Method of failure.
#[derive(Debug, Clone, Copy, PartialEq, Eq, Structural)]
pub enum Method {
    /// Failure caused by a panic.
    Panic,
}

/// The tag string a failure method is serialized as.
pub open spec fn method_str(m: Method) -> Seq<char> {
    match m {
        Method::Panic => "Panic"@,
    }
}

/// Metadata about one fault event: identifying strings, the failure method,
/// the rendered backtrace, and the caller-preferred directory to persist in.
/// Assembled once per fault and never mutated afterwards.
pub struct Report {
    pub name: String,
    pub operating_system: String,
    pub crate_version: String,
    pub explanation: String,
    pub cause: String,
    pub method: Method,
    pub backtrace: String,
    pub path: String,
}

/// The mathematical value of a `Report`.
#[verifier::ext_equal]
pub struct ReportView {
    pub name: Seq<char>,
    pub operating_system: Seq<char>,
    pub crate_version: Seq<char>,
    pub explanation: Seq<char>,
    pub cause: Seq<char>,
    pub method: Method,
    pub backtrace: Seq<char>,
    pub path: Seq<char>,
}

impl View for Report {
    type V = ReportView;

    open spec fn view(&self) -> ReportView {
        ReportView {
            name: self.name@,
            operating_system: self.operating_system@,
            crate_version: self.crate_version@,
            explanation: self.explanation@,
            cause: self.cause@,
            method: self.method,
            backtrace: self.backtrace@,
            path: self.path@,
        }
    }
}

/// The serialized text of a whole report: its fields in a fixed order, each
/// as one `key = "value"` line with the value escaped.
pub open spec fn report_str(r: ReportView) -> Seq<char> {
    field_str("name"@, r.name)
    + (field_str("operating_system"@, r.operating_system)
    + (field_str("crate_version"@, r.crate_version)
    + (field_str("explanation"@, r.explanation)
    + (field_str("cause"@, r.cause)
    + (field_str("method"@, method_str(r.method))
    + (field_str("backtrace"@, r.backtrace)
    + field_str("path"@, r.path)))))))
}

/// The failure method a tag string parses back to.
pub open spec fn parse_method(t: Seq<char>) -> Option<Method> {
    if t == method_str(Method::Panic) { Some(Method::Panic) } else { None }
}

/// The report a serialized text parses back to: all eight fields in order,
/// with nothing left over.
pub open spec fn parse_report_str(s: Seq<char>) -> Option<ReportView> {
    match spec_parse_field(s, 0, "name"@) {
        Some(p1) => match spec_parse_field(s, p1.1, "operating_system"@) {
            Some(p2) => match spec_parse_field(s, p2.1, "crate_version"@) {
                Some(p3) => match spec_parse_field(s, p3.1, "explanation"@) {
                    Some(p4) => match spec_parse_field(s, p4.1, "cause"@) {
                        Some(p5) => match spec_parse_field(s, p5.1, "method"@) {
                            Some(p6) => match parse_method(p6.0) {
                                Some(m) => match spec_parse_field(s, p6.1, "backtrace"@) {
                                    Some(p7) => match spec_parse_field(s, p7.1, "path"@) {
                                        Some(p8) => if p8.1 == s.len() {
                                            Some(ReportView {
                                                name: p1.0,
                                                operating_system: p2.0,
                                                crate_version: p3.0,
                                                explanation: p4.0,
                                                cause: p5.0,
                                                method: m,
                                                backtrace: p7.0,
                                                path: p8.0,
                                            })
                                        } else {
                                            None
                                        },
                                        None => None,
                                    },
                                    None => None,
                                },
                                None => None,
                            },
                            None => None,
                        },
                        None => None,
                    },
                    None => None,
                },
                None => None,
            },
            None => None,
        },
        None => None,
    }
}

/// Where `s` holds one whole field block at position `i`, parsing the field
/// there yields exactly the block's value and stops at the block's end.
pub proof fn lemma_parse_field_block(s: Seq<char>, i: int, key: Seq<char>, v: Seq<char>)
    requires
        0 <= i,
        i + field_str(key, v).len() <= s.len(),
        s.subrange(i, i + field_str(key, v).len() as int) == field_str(key, v),
    ensures
        spec_parse_field(s, i, key) == Some((v, i + field_str(key, v).len() as int)),
{
    reveal_strlit(" = \"");
    reveal_strlit("\"\n");
    reveal_strlit("\n");
    let p2 = " = \""@;
    let p3 = escape(v);
    let p4 = "\"\n"@;
    let f = field_str(key, v);
    let ab = key + p2;
    let abc = ab + p3;
    assert(p2.len() == 4);
    assert(p4.len() == 2 && p4[0] == '"' && p4[1] == '\n');
    assert(f == abc + p4);
    assert(f.len() == key.len() + 4 + p3.len() + 2);
    let j0 = i + key.len() as int;
    let j1 = j0 + 4;
    let j2 = j1 + p3.len() as int + 1;
    assert forall |m: int| 0 <= m < f.len() implies s[i + m] == f[m] by {
        assert(s.subrange(i, i + f.len() as int)[m] == s[i + m]);
    }
    assert(s.subrange(i, j0) =~= key) by {
        assert forall |k: int| 0 <= k < key.len()
            implies s.subrange(i, j0)[k] == key[k] by {
            assert(s.subrange(i, j0)[k] == s[i + k]);
            assert(s[i + k] == f[k]);
            assert(f[k] == abc[k]);
            assert(abc[k] == ab[k]);
            assert(ab[k] == key[k]);
        }
    }
    assert(expect(s, i, key) == Some(j0));
    assert(s.subrange(j0, j1) =~= p2) by {
        assert forall |k: int| 0 <= k < 4
            implies s.subrange(j0, j1)[k] == p2[k] by {
            let m = key.len() as int + k;
            assert(s.subrange(j0, j1)[k] == s[i + m]);
            assert(s[i + m] == f[m]);
            assert(f[m] == abc[m]);
            assert(abc[m] == ab[m]);
            assert(ab[m] == p2[k]);
        }
    }
    assert(expect(s, j0, p2) == Some(j1));
    assert(s.subrange(j1, j1 + p3.len() as int) =~= p3) by {
        assert forall |k: int| 0 <= k < p3.len()
            implies s.subrange(j1, j1 + p3.len() as int)[k] == p3[k] by {
            let m = key.len() as int + 4 + k;
            assert(s.subrange(j1, j1 + p3.len() as int)[k] == s[i + m]);
            assert(s[i + m] == f[m]);
            assert(f[m] == abc[m]);
            assert(abc[m] == p3[k]);
        }
    }
    assert(s[j1 + p3.len() as int] == '"') by {
        let m = key.len() as int + 4 + p3.len() as int;
        assert(s[i + m] == f[m]);
        assert(f[m] == p4[0]);
    }
    lemma_consume_escaped(s, j1, v);
    assert(consume_str(s, j1) == Some((v, j2)));
    assert(s.subrange(j2, j2 + 1) =~= "\n"@) by {
        let m = key.len() as int + 4 + p3.len() as int + 1;
        assert(s[i + m] == f[m]);
        assert(f[m] == p4[1]);
        assert(s.subrange(j2, j2 + 1)[0] == s[j2]);
    }
    assert(expect(s, j2, "\n"@) == Some(j2 + 1));
    assert(j2 + 1 == i + f.len());
}

/// Parsing inverts serialization: the serialized text of any report parses
/// back to exactly that report, every field recovered unchanged.
pub proof fn lemma_report_roundtrip(r: ReportView)
    ensures
        parse_report_str(report_str(r)) == Some(r),
{
    let s = report_str(r);
    let f1 = field_str("name"@, r.name);
    let f2 = field_str("operating_system"@, r.operating_system);
    let f3 = field_str("crate_version"@, r.crate_version);
    let f4 = field_str("explanation"@, r.explanation);
    let f5 = field_str("cause"@, r.cause);
    let f6 = field_str("method"@, method_str(r.method));
    let f7 = field_str("backtrace"@, r.backtrace);
    let f8 = field_str("path"@, r.path);
    let t8 = f8;
    let t7 = f7 + t8;
    let t6 = f6 + t7;
    let t5 = f5 + t6;
    let t4 = f4 + t5;
    let t3 = f3 + t4;
    let t2 = f2 + t3;
    let o0 = 0int;
    let o1 = o0 + f1.len() as int;
    let o2 = o1 + f2.len() as int;
    let o3 = o2 + f3.len() as int;
    let o4 = o3 + f4.len() as int;
    let o5 = o4 + f5.len() as int;
    let o6 = o5 + f6.len() as int;
    let o7 = o6 + f7.len() as int;
    let o8 = o7 + f8.len() as int;
    assert(s.skip(0) =~= f1 + t2);
    lemma_skip_concat(s, o0, f1, t2);
    lemma_skip_concat(s, o1, f2, t3);
    lemma_skip_concat(s, o2, f3, t4);
    lemma_skip_concat(s, o3, f4, t5);
    lemma_skip_concat(s, o4, f5, t6);
    lemma_skip_concat(s, o5, f6, t7);
    lemma_skip_concat(s, o6, f7, t8);
    assert(f8 + Seq::<char>::empty() =~= f8);
    lemma_skip_concat(s, o7, f8, Seq::<char>::empty());
    assert(s.len() == o8);
    lemma_parse_field_block(s, o0, "name"@, r.name);
    lemma_parse_field_block(s, o1, "operating_system"@, r.operating_system);
    lemma_parse_field_block(s, o2, "crate_version"@, r.crate_version);
    lemma_parse_field_block(s, o3, "explanation"@, r.explanation);
    lemma_parse_field_block(s, o4, "cause"@, r.cause);
    lemma_parse_field_block(s, o5, "method"@, method_str(r.method));
    lemma_parse_field_block(s, o6, "backtrace"@, r.backtrace);
    lemma_parse_field_block(s, o7, "path"@, r.path);
    match r.method {
        Method::Panic => {
            assert(parse_method(method_str(r.method)) == Some(r.method));
        },
    }
    assert(parse_report_str(s) == Some(r)) by {
        let parsed = parse_report_str(s)->0;
        assert(parsed =~= r);
    }
}

fn push_field(out: &mut Vec<char>, key: &str, value: &str)
    ensures
        final(out)@ == old(out)@ + field_str(key@, value@),
{
    push_str_chars(out, key);
    push_str_chars(out, " = \"");
    push_escaped(out, value);
    push_str_chars(out, "\"\n");
    assert(final(out)@ =~= old(out)@ + field_str(key@, value@));
}

fn parse_field_exec(v: &Vec<char>, i: usize, key: &str) -> (r: Option<(Vec<char>, usize)>)
    ensures
        match spec_parse_field(v@, i as int, key@) {
            Some(p) => r is Some && (match r {
                Some(q) => q.0@ == p.0 && q.1 as int == p.1,
                None => false,
            }),
            None => r is None,
        },
{
    let j0 = match expect_lit(v, i, key) {
        Some(j) => j,
        None => { return None; },
    };
    let j1 = match expect_lit(v, j0, " = \"") {
        Some(j) => j,
        None => { return None; },
    };
    let mut val: Vec<char> = Vec::new();
    proof {
        if consume_str(v@, j1 as int) is Some {
            lemma_consume_in_range(v@, j1 as int);
        }
    }
    let j2 = match consume_exec(v, j1, &mut val) {
        Some(j) => j,
        None => { return None; },
    };
    proof {
        assert(val@ =~= Seq::<char>::empty() + (consume_str(v@, j1 as int)->0).0);
    }
    let j3 = match expect_lit(v, j2, "\n") {
        Some(j) => j,
        None => { return None; },
    };
    Some((val, j3))
}

/// Parse a serialized report back into a `Report`. Returns a report exactly
/// when the text is a well-formed serialization, and then recovers every
/// field value.
pub fn parse_report(s: &str) -> (r: Option<Report>)
    ensures
        match parse_report_str(s@) {
            Some(rv) => r is Some && (match r {
                Some(rep) => rep@ == rv,
                None => false,
            }),
            None => r is None,
        },
{
    let v = str_to_chars(s);
    let (name, i1) = match parse_field_exec(&v, 0, "name") {
        Some(q) => q,
        None => { return None; },
    };
    let (operating_system, i2) = match parse_field_exec(&v, i1, "operating_system") {
        Some(q) => q,
        None => { return None; },
    };
    let (crate_version, i3) = match parse_field_exec(&v, i2, "crate_version") {
        Some(q) => q,
        None => { return None; },
    };
    let (explanation, i4) = match parse_field_exec(&v, i3, "explanation") {
        Some(q) => q,
        None => { return None; },
    };
    let (cause, i5) = match parse_field_exec(&v, i4, "cause") {
        Some(q) => q,
        None => { return None; },
    };
    let (method_tag, i6) = match parse_field_exec(&v, i5, "method") {
        Some(q) => q,
        None => { return None; },
    };
    if !chars_eq_lit(&method_tag, "Panic") {
        return None;
    }
    let (backtrace, i7) = match parse_field_exec(&v, i6, "backtrace") {
        Some(q) => q,
        None => { return None; },
    };
    let (path, i8) = match parse_field_exec(&v, i7, "path") {
        Some(q) => q,
        None => { return None; },
    };
    if i8 != v.len() {
        return None;
    }
    let rep = Report {
        name: chars_to_string(&name),
        operating_system: chars_to_string(&operating_system),
        crate_version: chars_to_string(&crate_version),
        explanation: chars_to_string(&explanation),
        cause: chars_to_string(&cause),
        method: Method::Panic,
        backtrace: chars_to_string(&backtrace),
        path: chars_to_string(&path),
    };
    proof {
        let rv = parse_report_str(s@)->0;
        assert(rep@ =~= rv);
    }
    Some(rep)
}

impl Report {
    /// Assemble a report from caller-supplied metadata, a platform
    /// description, and already-captured frames: the trace text is the
    /// rendering of the frames that survive the fixed skip count, and every
    /// metadata field is stored verbatim.
    pub fn new_from_frames(
        name: &str,
        version: &str,
        method: Method,
        explanation: String,
        cause: String,
        path_to_save: &str,
        operating_system: String,
        frames: Vec<Frame>,
    ) -> (r: Report)
        ensures
            r@.name == name@,
            r@.crate_version == version@,
            r@.method == method,
            r@.explanation == explanation@,
            r@.cause == cause@,
            r@.path == path_to_save@,
            r@.operating_system == operating_system@,
            r@.backtrace == trace_str(visible_frames(frames.deep_view(), SKIP_FRAMES as int)),
    {
        let rendered = render_trace(&frames, SKIP_FRAMES);
        let backtrace = chars_to_string(&rendered);
        Report {
            name: String::from_str(name),
            operating_system,
            crate_version: String::from_str(version),
            explanation,
            cause,
            method,
            backtrace,
            path: String::from_str(path_to_save),
        }
    }

    /// Create a new instance at fault time: queries the host for a platform
    /// description, captures the current call stack, and stores everything
    /// as one record. The captured frames depend on the live call stack, so
    /// of the trace only its shape is promised: it is the rendering of some
    /// captured frame sequence after the fixed skip count.
    pub fn new(
        name: &str,
        version: &str,
        method: Method,
        explanation: String,
        cause: String,
        path_to_save: &str,
    ) -> (r: Report)
        ensures
            r@.name == name@,
            r@.crate_version == version@,
            r@.method == method,
            r@.explanation == explanation@,
            r@.cause == cause@,
            r@.path == path_to_save@,
            exists |fs: Seq<FrameView>| r@.backtrace == trace_str(
                visible_frames(fs, SKIP_FRAMES as int),
            ),
    {
        let operating_system = os_description();
        let frames = capture_frames();
        let ghost fs: Seq<FrameView> = frames.deep_view();
        let r = Report::new_from_frames(
            name, version, method, explanation, cause, path_to_save, operating_system, frames,
        );
        proof {
            assert(r@.backtrace == trace_str(visible_frames(fs, SKIP_FRAMES as int)));
        }
        r
    }

    /// Serialize the report to its persisted text form. The encoder cannot
    /// fail, so a string is always returned, and it is exactly the report's
    /// serialized text.
    pub fn serialize(&self) -> (r: Option<String>)
        ensures
            r is Some,
            match r {
                Some(s) => s@ == report_str(self@),
                None => false,
            },
    {
        let mut out: Vec<char> = Vec::new();
        push_field(&mut out, "name", self.name.as_str());
        push_field(&mut out, "operating_system", self.operating_system.as_str());
        push_field(&mut out, "crate_version", self.crate_version.as_str());
        push_field(&mut out, "explanation", self.explanation.as_str());
        push_field(&mut out, "cause", self.cause.as_str());
        match self.method {
            Method::Panic => {
                push_field(&mut out, "method", "Panic");
            },
        }
        push_field(&mut out, "backtrace", self.backtrace.as_str());
        push_field(&mut out, "path", self.path.as_str());
        assert(out@ =~= report_str(self@));
        Some(chars_to_string(&out))
    }
}

/// Relies on os_info: `get` queries the host operating system and the
/// result's `Display` renders a human-readable platform description. The
/// description depends on the machine, so nothing is promised of it; it is
/// stored verbatim as an opaque string.
#[verifier::external_body]
fn os_description() -> (r: String) {
    os_info::get().to_string()
}

/// Whether `c` is a lower-case hexadecimal digit character.
pub open spec fn is_hex_char(c: char) -> bool {
    ('0' <= c && c <= '9') || ('a' <= c && c <= 'f')
}

/// The shape of a hyphenated 128-bit unique identifier: 36 characters,
/// hyphens exactly at positions 8, 13, 18 and 23, hexadecimal digits
/// everywhere else.
pub open spec fn is_uuid_str(s: Seq<char>) -> bool {
    &&& s.len() == 36
    &&& s[8] == '-' && s[13] == '-' && s[18] == '-' && s[23] == '-'
    &&& forall |i: int| 0 <= i < 36 && i != 8 && i != 13 && i != 18 && i != 23
        ==> is_hex_char(#[trigger] s[i])
}

/// Whether `c` can appear in a minute-precision local timestamp: a digit, a
/// hyphen (separator, or the sign of a year before the common era), a plus
/// (the sign a year of five or more digits is written with), a space or a
/// colon.
pub open spec fn is_timestamp_char(c: char) -> bool {
    ('0' <= c && c <= '9') || c == '-' || c == '+' || c == ' ' || c == ':'
}

/// The shape of a minute-precision local timestamp, year first: at least 16
/// characters, all of them digits, signs, hyphens, spaces or colons.
pub open spec fn is_timestamp_str(s: Seq<char>) -> bool {
    &&& s.len() >= 16
    &&& forall |i: int| 0 <= i < s.len() ==> is_timestamp_char(#[trigger] s[i])
}

/// Relies on the uuid crate: `Uuid::new_v4` draws a fresh random 128-bit
/// identifier, and `Hyphenated`'s `Display` renders it as 36 characters with
/// hyphens at positions 8, 13, 18 and 23 and lower-case hexadecimal digits
/// elsewhere. The value is random, so only that shape is promised.
#[verifier::external_body]
fn fresh_uuid() -> (r: String)
    ensures
        is_uuid_str(r@),
{
    uuid::Uuid::new_v4().hyphenated().to_string()
}

/// Relies on chrono: `Local::now` reads the wall clock, and formatting it
/// year-month-day space hour-colon-minute yields at least 16 characters,
/// each a digit, a sign (years outside the four-digit range are written
/// signed), a hyphen, a space or a colon. The value depends on the clock, so
/// only that shape is promised.
#[verifier::external_body]
fn local_time_minute() -> (r: String)
    ensures
        is_timestamp_str(r@),
{
    chrono::Local::now().format("%Y-%m-%d %H:%M").to_string()
}

/// The file name built from a timestamp and an identifier.
pub open spec fn file_name_str(date: Seq<char>, id: Seq<char>) -> Seq<char> {
    "report-"@ + date + "-"@ + id + ".toml"@
}

/// The shape of a generated report file name: the literal prefix, some
/// timestamp, a hyphen, some hyphenated identifier, and the extension.
pub open spec fn is_report_file_name(s: Seq<char>) -> bool {
    exists |d: Seq<char>, u: Seq<char>|
        #![auto]
        is_timestamp_str(d) && is_uuid_str(u) && s == file_name_str(d, u)
}

/// Build the report file name for a given timestamp and identifier.
pub fn build_file_name(date: &str, id: &str) -> (r: String)
    ensures
        r@ == file_name_str(date@, id@),
{
    let mut out: Vec<char> = Vec::new();
    push_str_chars(&mut out, "report-");
    push_str_chars(&mut out, date);
    push_str_chars(&mut out, "-");
    push_str_chars(&mut out, id);
    push_str_chars(&mut out, ".toml");
    assert(out@ =~= file_name_str(date@, id@));
    chars_to_string(&out)
}

/// Generate a fresh report file name from the current local time and a fresh
/// random identifier: collision-resistant even within one minute.
pub fn generate_file_name() -> (r: String)
    ensures
        is_report_file_name(r@),
{
    let date = local_time_minute();
    let id = fresh_uuid();
    let r = build_file_name(date.as_str(), id.as_str());
    proof {
        assert(is_timestamp_str(date@) && is_uuid_str(id@) && r@ == file_name_str(date@, id@));
    }
    r
}

/// The directory a report is persisted in: the preferred directory when it
/// could be made usable, else the given fallback.
pub open spec fn target_dir_str(preferred_ok: bool, preferred: Seq<char>, fallback: Seq<char>)
    -> Seq<char> {
    if preferred_ok { preferred } else { fallback }
}

/// Choose the directory to persist in: the preferred directory when
/// `preferred_ok` says it could be created, else the fallback directory.
pub fn target_dir(preferred_ok: bool, preferred: &str, fallback: &str) -> (r: String)
    ensures
        r@ == target_dir_str(preferred_ok, preferred@, fallback@),
{
    if preferred_ok {
        String::from_str(preferred)
    } else {
        String::from_str(fallback)
    }
}

/// The full path of a file inside a directory.
pub open spec fn joined_path_str(dir: Seq<char>, file: Seq<char>) -> Seq<char> {
    dir + "/"@ + file
}

/// Join a directory and a file name into one path.
pub fn join_path(dir: &str, file: &str) -> (r: String)
    ensures
        r@ == joined_path_str(dir@, file@),
{
    let mut out: Vec<char> = Vec::new();
    push_str_chars(&mut out, dir);
    push_str_chars(&mut out, "/");
    push_str_chars(&mut out, file);
    assert(out@ =~= joined_path_str(dir@, file@));
    chars_to_string(&out)
}

/// The persisted path always lies inside the chosen directory, and that
/// directory is either the preferred one or the fallback — never a third
/// location.
pub proof fn lemma_persist_path_in_target(
    preferred_ok: bool,
    preferred: Seq<char>,
    fallback: Seq<char>,
    file: Seq<char>,
)
    ensures
        ({
            let dir = target_dir_str(preferred_ok, preferred, fallback);
            let path = joined_path_str(dir, file);
            &&& path.take(dir.len() as int) == dir
            &&& dir == preferred || dir == fallback
        }),
{
    let dir = target_dir_str(preferred_ok, preferred, fallback);
    let path = joined_path_str(dir, file);
    assert(path.take(dir.len() as int) =~= dir);
}

} // verus!
