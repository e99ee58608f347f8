//! Stack capture and symbolication: a model of captured stack frames and a
//! verified renderer that turns them into the human-readable trace text.

use vstd::prelude::*;
use crate::text::{
    dec_digits, hex_digits, pad_left, spaces, push_dec, push_dec_padded, push_spaces,
    push_str_chars, push_chars, nl_count, no_newline, lemma_nl_count_concat,
    lemma_nl_count_zero, lemma_dec_digits_no_newline, lemma_hex_digits_no_newline,
    lemma_pad_left_no_newline,
};

verus! {

/// Leading captured frames hidden from the rendered trace: they belong to the
/// capture library itself, to this library's construction call chain, and to
/// the runtime's fault dispatch, and carry no diagnostic value. The value is
/// tied to that three-layer call chain being eight frames deep; it must be
/// revisited if a wrapper layer is added or removed.
pub const SKIP_FRAMES: usize = 8;

/// Width of the rendered address field: the size in bytes of a pointer plus
/// two, as on the 8-byte-pointer targets this library is built for.
pub const ADDR_WIDTH: usize = 10;

/// Indentation of continuation lines under a frame, aligning them under the
/// address field rather than the index field.
pub const SYMBOL_PAD: usize = ADDR_WIDTH + 6;

/// One symbol resolved for a frame: an optional demangled name and an optional
/// source file and line.
pub struct Symbol {
    pub name: Option<String>,
    pub file: Option<String>,
    pub line: Option<u32>,
}

/// The mathematical value of a `Symbol`.
pub struct SymbolView {
    pub name: Option<Seq<char>>,
    pub file: Option<Seq<char>>,
    pub line: Option<u32>,
}

impl View for Symbol {
    type V = SymbolView;

    open spec fn view(&self) -> SymbolView {
        SymbolView {
            name: match self.name {
                Some(n) => Some(n@),
                None => None,
            },
            file: match self.file {
                Some(f) => Some(f@),
                None => None,
            },
            line: self.line,
        }
    }
}

impl DeepView for Symbol {
    type V = SymbolView;

    open spec fn deep_view(&self) -> SymbolView {
        self.view()
    }
}

/// One captured stack frame: an instruction-pointer address and the symbols
/// resolved for it (empty when resolution found nothing). Frames are ordered
/// innermost first, exactly as captured.
pub struct Frame {
    pub ip: usize,
    pub symbols: Vec<Symbol>,
}

/// The mathematical value of a `Frame`.
pub struct FrameView {
    pub ip: usize,
    pub symbols: Seq<SymbolView>,
}

impl View for Frame {
    type V = FrameView;

    open spec fn view(&self) -> FrameView {
        FrameView { ip: self.ip, symbols: self.symbols.deep_view() }
    }
}

impl DeepView for Frame {
    type V = FrameView;

    open spec fn deep_view(&self) -> FrameView {
        self.view()
    }
}

/// The rendered address field: `0x` and the hexadecimal address, right-aligned
/// in a field of `ADDR_WIDTH` characters.
pub open spec fn addr_str(ip: usize) -> Seq<char> {
    pad_left(seq!['0', 'x'] + hex_digits(ip as nat), ADDR_WIDTH as nat)
}

/// The text contributed by the symbol at position `j` of a frame's symbol
/// list: a name line (continuation lines are indented by `SYMBOL_PAD`), and a
/// source-location line when both file and line are known.
pub open spec fn sym_str(j: int, s: SymbolView) -> Seq<char> {
    (if j == 0 { Seq::<char>::empty() } else { seq!['\n'] + spaces(SYMBOL_PAD as nat) })
    + (match s.name {
        Some(n) => " - "@ + n,
        None => " - <unknown>"@,
    })
    + (match (s.file, s.line) {
        (Some(f), Some(l)) => seq!['\n'] + spaces(SYMBOL_PAD as nat) + "at "@ + f + seq![':']
            + dec_digits(l as nat),
        _ => Seq::<char>::empty(),
    })
}

/// The concatenated text of the first `n` symbols of `ss`.
pub open spec fn syms_str(ss: Seq<SymbolView>, n: int) -> Seq<char>
    decreases n,
{
    if n <= 0 { Seq::<char>::empty() } else { syms_str(ss, n - 1) + sym_str(n - 1, ss[n - 1]) }
}

/// The text of one frame under display index `i`: a newline, the right-aligned
/// index, the address field, then either the unresolved marker or the frame's
/// symbols.
pub open spec fn frame_str(i: int, f: FrameView) -> Seq<char> {
    seq!['\n'] + pad_left(dec_digits(i as nat), 4) + ": "@ + addr_str(f.ip)
    + (if f.symbols.len() == 0 { " - <unresolved>"@ } else {
        syms_str(f.symbols, f.symbols.len() as int)
    })
}

/// The concatenated text of the first `n` frames of `fs`, with display indices
/// starting at zero.
pub open spec fn frames_str(fs: Seq<FrameView>, n: int) -> Seq<char>
    decreases n,
{
    if n <= 0 { Seq::<char>::empty() } else { frames_str(fs, n - 1) + frame_str(n - 1, fs[n - 1]) }
}

/// The full rendered trace of a frame sequence: empty exactly when no frames
/// are given.
pub open spec fn trace_str(fs: Seq<FrameView>) -> Seq<char> {
    frames_str(fs, fs.len() as int)
}

/// The frames that survive skipping the first `skip` of `fs`: empty when fewer
/// than `skip` frames were captured.
pub open spec fn visible_frames(fs: Seq<FrameView>, skip: int) -> Seq<FrameView> {
    if skip <= fs.len() { fs.skip(skip) } else { Seq::<FrameView>::empty() }
}

fn push_addr(out: &mut Vec<char>, ip: usize)
    ensures
        final(out)@ == old(out)@ + addr_str(ip),
{
    let mut tmp: Vec<char> = Vec::new();
    tmp.push('0');
    tmp.push('x');
    crate::text::push_hex(&mut tmp, ip as u64);
    assert(tmp@ =~= seq!['0', 'x'] + hex_digits(ip as nat));
    if tmp.len() < ADDR_WIDTH {
        push_spaces(out, ADDR_WIDTH - tmp.len());
    }
    push_chars(out, &tmp);
    assert(final(out)@ =~= old(out)@ + addr_str(ip));
}

fn push_symbol(out: &mut Vec<char>, j: usize, s: &Symbol)
    ensures
        final(out)@ == old(out)@ + sym_str(j as int, s@),
{
    if j != 0 {
        out.push('\n');
        push_spaces(out, SYMBOL_PAD);
    }
    match &s.name {
        Some(n) => {
            push_str_chars(out, " - ");
            push_str_chars(out, n.as_str());
        },
        None => {
            push_str_chars(out, " - <unknown>");
        },
    }
    match (&s.file, &s.line) {
        (Some(f), Some(l)) => {
            out.push('\n');
            push_spaces(out, SYMBOL_PAD);
            push_str_chars(out, "at ");
            push_str_chars(out, f.as_str());
            out.push(':');
            push_dec(out, *l as u64);
        },
        _ => {},
    }
    assert(final(out)@ =~= old(out)@ + sym_str(j as int, s@));
}

fn push_frame(out: &mut Vec<char>, i: usize, f: &Frame)
    ensures
        final(out)@ == old(out)@ + frame_str(i as int, f@),
{
    let ghost base: Seq<char> = out@;
    out.push('\n');
    push_dec_padded(out, i as u64, 4);
    push_str_chars(out, ": ");
    push_addr(out, f.ip);
    if f.symbols.len() == 0 {
        push_str_chars(out, " - <unresolved>");
    } else {
        let ghost head: Seq<char> = out@;
        let mut j: usize = 0;
        while j < f.symbols.len()
            invariant
                j <= f.symbols.len(),
                f@.symbols.len() == f.symbols.len(),
                forall |k: int| 0 <= k < f.symbols.len() ==> f@.symbols[k] == f.symbols@[k]@,
                out@ == head + syms_str(f@.symbols, j as int),
            decreases f.symbols.len() - j,
        {
            push_symbol(out, j, &f.symbols[j]);
            assert(out@ =~= head + syms_str(f@.symbols, (j + 1) as int));
            j += 1;
        }
    }
    assert(final(out)@ =~= base + frame_str(i as int, f@));
}

/// Render the frames of `frames` that survive skipping the first `skip`,
/// innermost first, into the trace text.
pub fn render_trace(frames: &Vec<Frame>, skip: usize) -> (r: Vec<char>)
    ensures
        r@ == trace_str(visible_frames(frames.deep_view(), skip as int)),
{
    let ghost vis: Seq<FrameView> = visible_frames(frames.deep_view(), skip as int);
    let mut out: Vec<char> = Vec::new();
    if skip >= frames.len() {
        assert(vis.len() == 0);
        return out;
    }
    let mut i: usize = skip;
    while i < frames.len()
        invariant
            skip <= i <= frames.len(),
            vis == visible_frames(frames.deep_view(), skip as int),
            vis.len() == frames.len() - skip,
            forall |k: int| 0 <= k < vis.len() ==> vis[k] == frames@[skip + k]@,
            out@ == frames_str(vis, (i - skip) as int),
        decreases frames.len() - i,
    {
        push_frame(&mut out, i - skip, &frames[i]);
        assert(out@ =~= frames_str(vis, (i + 1 - skip) as int));
        i += 1;
    }
    out
}

/// The number of lines the symbol at position `j` contributes: one of its own
/// when it is not the frame's first, and one more when it carries a source
/// location.
pub open spec fn sym_line_count(j: int, s: SymbolView) -> nat {
    (if j == 0 { 0nat } else { 1nat }) + (match (s.file, s.line) {
        (Some(f), Some(l)) => 1nat,
        _ => 0nat,
    })
}

/// The lines contributed by the first `n` symbols of `ss`.
pub open spec fn syms_line_count(ss: Seq<SymbolView>, n: int) -> nat
    decreases n,
{
    if n <= 0 { 0 } else { syms_line_count(ss, n - 1) + sym_line_count(n - 1, ss[n - 1]) }
}

/// The lines one frame renders as: its own line, plus its symbols'
/// continuation and source-location lines.
pub open spec fn frame_line_count(f: FrameView) -> nat {
    1 + (if f.symbols.len() == 0 { 0nat } else {
        syms_line_count(f.symbols, f.symbols.len() as int)
    })
}

/// The lines the first `n` frames render as.
pub open spec fn frames_line_count(fs: Seq<FrameView>, n: int) -> nat
    decreases n,
{
    if n <= 0 { 0 } else { frames_line_count(fs, n - 1) + frame_line_count(fs[n - 1]) }
}

/// The lines a whole trace renders as: a pure function of the frame count,
/// each frame's symbol count, and which symbols carry a source location.
pub open spec fn trace_line_count(fs: Seq<FrameView>) -> nat {
    frames_line_count(fs, fs.len() as int)
}

/// The newlines a symbol's own text contributes beyond the line structure:
/// those inside its rendered name and, when a source location is rendered,
/// inside its file path.
pub open spec fn sym_extra_newlines(s: SymbolView) -> nat {
    (match s.name { Some(n) => nl_count(n), None => 0nat })
    + (match (s.file, s.line) { (Some(f), Some(l)) => nl_count(f), _ => 0nat })
}

/// The extra newlines carried by the first `n` symbols of `ss`.
pub open spec fn syms_extra_newlines(ss: Seq<SymbolView>, n: int) -> nat
    decreases n,
{
    if n <= 0 { 0 } else { syms_extra_newlines(ss, n - 1) + sym_extra_newlines(ss[n - 1]) }
}

/// The extra newlines carried by one frame's rendered symbols.
pub open spec fn frame_extra_newlines(f: FrameView) -> nat {
    if f.symbols.len() == 0 { 0 } else {
        syms_extra_newlines(f.symbols, f.symbols.len() as int)
    }
}

/// The extra newlines carried by the first `n` frames of `fs`.
pub open spec fn frames_extra_newlines(fs: Seq<FrameView>, n: int) -> nat
    decreases n,
{
    if n <= 0 { 0 } else { frames_extra_newlines(fs, n - 1) + frame_extra_newlines(fs[n - 1]) }
}

/// The extra newlines the whole trace inherits from symbol names and file
/// paths that hold newlines of their own.
pub open spec fn trace_extra_newlines(fs: Seq<FrameView>) -> nat {
    frames_extra_newlines(fs, fs.len() as int)
}

/// Whether a symbol's name and file, where present, are free of newlines.
pub open spec fn sym_no_newline(s: SymbolView) -> bool {
    &&& match s.name { Some(n) => no_newline(n), None => true }
    &&& match s.file { Some(f) => no_newline(f), None => true }
}

/// Whether every symbol of every frame of `fs` is free of newlines.
pub open spec fn frames_no_newline(fs: Seq<FrameView>) -> bool {
    forall |i: int, j: int| 0 <= i < fs.len() && 0 <= j < fs[i].symbols.len()
        ==> sym_no_newline(#[trigger] fs[i].symbols[j])
}

proof fn lemma_sym_str_nl(j: int, s: SymbolView)
    requires
        j >= 0,
    ensures
        nl_count(sym_str(j, s)) == sym_line_count(j, s) + sym_extra_newlines(s),
{
    reveal_strlit(" - ");
    reveal_strlit(" - <unknown>");
    reveal_strlit("at ");
    let pre = if j == 0 { Seq::<char>::empty() } else { seq!['\n'] + spaces(SYMBOL_PAD as nat) };
    let mid = match s.name {
        Some(n) => " - "@ + n,
        None => " - <unknown>"@,
    };
    let loc = match (s.file, s.line) {
        (Some(f), Some(l)) => seq!['\n'] + spaces(SYMBOL_PAD as nat) + "at "@ + f + seq![':']
            + dec_digits(l as nat),
        _ => Seq::<char>::empty(),
    };
    assert(sym_str(j, s) == pre + mid + loc);
    assert(nl_count(Seq::<char>::empty()) == 0);
    assert(nl_count(seq!['\n']) == 1) by {
        assert(seq!['\n'].drop_last() =~= Seq::<char>::empty());
        assert(nl_count(Seq::<char>::empty()) == 0);
        assert(seq!['\n'].last() == '\n');
    }
    assert(nl_count(spaces(SYMBOL_PAD as nat)) == 0) by {
        lemma_nl_count_zero(spaces(SYMBOL_PAD as nat));
    }
    if j != 0 {
        lemma_nl_count_concat(seq!['\n'], spaces(SYMBOL_PAD as nat));
    }
    assert(nl_count(pre) == if j == 0 { 0int } else { 1int });
    match s.name {
        Some(n) => {
            assert(no_newline(" - "@));
            lemma_nl_count_zero(" - "@);
            lemma_nl_count_concat(" - "@, n);
            assert(nl_count(mid) == nl_count(n));
        },
        None => {
            assert(no_newline(" - <unknown>"@));
            lemma_nl_count_zero(" - <unknown>"@);
            assert(nl_count(mid) == 0);
        },
    }
    match (s.file, s.line) {
        (Some(f), Some(l)) => {
            let a1 = seq!['\n'] + spaces(SYMBOL_PAD as nat);
            let a2 = a1 + "at "@;
            let a3 = a2 + f;
            let a4 = a3 + seq![':'];
            lemma_nl_count_concat(seq!['\n'], spaces(SYMBOL_PAD as nat));
            assert(no_newline("at "@));
            lemma_nl_count_zero("at "@);
            lemma_nl_count_concat(a1, "at "@);
            lemma_nl_count_concat(a2, f);
            assert(no_newline(seq![':']));
            lemma_nl_count_zero(seq![':']);
            lemma_nl_count_concat(a3, seq![':']);
            lemma_dec_digits_no_newline(l as nat);
            lemma_nl_count_zero(dec_digits(l as nat));
            lemma_nl_count_concat(a4, dec_digits(l as nat));
            assert(loc == a4 + dec_digits(l as nat));
            assert(nl_count(loc) == 1 + nl_count(f));
        },
        _ => {},
    }
    lemma_nl_count_concat(pre, mid);
    lemma_nl_count_concat(pre + mid, loc);
}

proof fn lemma_syms_str_nl(ss: Seq<SymbolView>, n: int)
    requires
        0 <= n <= ss.len(),
    ensures
        nl_count(syms_str(ss, n)) == syms_line_count(ss, n) + syms_extra_newlines(ss, n),
    decreases n,
{
    if n > 0 {
        lemma_syms_str_nl(ss, n - 1);
        lemma_sym_str_nl(n - 1, ss[n - 1]);
        lemma_nl_count_concat(syms_str(ss, n - 1), sym_str(n - 1, ss[n - 1]));
    }
}

proof fn lemma_frame_str_nl(i: int, f: FrameView)
    requires
        i >= 0,
    ensures
        nl_count(frame_str(i, f)) == frame_line_count(f) + frame_extra_newlines(f),
{
    reveal_strlit(": ");
    reveal_strlit(" - <unresolved>");
    let idx = pad_left(dec_digits(i as nat), 4);
    let tail = if f.symbols.len() == 0 { " - <unresolved>"@ } else {
        syms_str(f.symbols, f.symbols.len() as int)
    };
    let a1 = seq!['\n'] + idx;
    let a2 = a1 + ": "@;
    let a3 = a2 + addr_str(f.ip);
    assert(frame_str(i, f) == a3 + tail);
    assert(nl_count(seq!['\n']) == 1) by {
        assert(seq!['\n'].drop_last() =~= Seq::<char>::empty());
        assert(nl_count(Seq::<char>::empty()) == 0);
        assert(seq!['\n'].last() == '\n');
    }
    lemma_dec_digits_no_newline(i as nat);
    lemma_pad_left_no_newline(dec_digits(i as nat), 4);
    lemma_nl_count_zero(idx);
    lemma_nl_count_concat(seq!['\n'], idx);
    assert(no_newline(": "@));
    lemma_nl_count_zero(": "@);
    lemma_nl_count_concat(a1, ": "@);
    assert(no_newline(addr_str(f.ip))) by {
        lemma_hex_digits_no_newline(f.ip as nat);
        assert(no_newline(seq!['0', 'x'] + hex_digits(f.ip as nat))) by {
            assert forall |k: int| 0 <= k < (seq!['0', 'x'] + hex_digits(f.ip as nat)).len()
                implies (seq!['0', 'x'] + hex_digits(f.ip as nat))[k] != '\n' by {
                if k >= 2 {
                    assert((seq!['0', 'x'] + hex_digits(f.ip as nat))[k]
                        == hex_digits(f.ip as nat)[k - 2]);
                }
            }
        }
        lemma_pad_left_no_newline(seq!['0', 'x'] + hex_digits(f.ip as nat), ADDR_WIDTH as nat);
    }
    lemma_nl_count_zero(addr_str(f.ip));
    lemma_nl_count_concat(a2, addr_str(f.ip));
    if f.symbols.len() == 0 {
        assert(no_newline(" - <unresolved>"@));
        lemma_nl_count_zero(" - <unresolved>"@);
    } else {
        lemma_syms_str_nl(f.symbols, f.symbols.len() as int);
    }
    lemma_nl_count_concat(a3, tail);
}

proof fn lemma_frames_str_nl(fs: Seq<FrameView>, n: int)
    requires
        0 <= n <= fs.len(),
    ensures
        nl_count(frames_str(fs, n)) == frames_line_count(fs, n) + frames_extra_newlines(fs, n),
    decreases n,
{
    if n > 0 {
        lemma_frames_str_nl(fs, n - 1);
        lemma_frame_str_nl(n - 1, fs[n - 1]);
        lemma_nl_count_concat(frames_str(fs, n - 1), frame_str(n - 1, fs[n - 1]));
    }
}

/// Law: the rendered trace's line structure is a pure function of the
/// frames. Its newline count is the count formula — one line per frame, one
/// continuation line per symbol beyond a frame's first, one source-location
/// line per symbol that carries one — plus exactly the newlines that the
/// rendered symbol names and file paths hold of their own.
pub proof fn lemma_trace_line_count(fs: Seq<FrameView>)
    ensures
        nl_count(trace_str(fs)) == trace_line_count(fs) + trace_extra_newlines(fs),
{
    lemma_frames_str_nl(fs, fs.len() as int);
}

proof fn lemma_syms_extra_zero(ss: Seq<SymbolView>, n: int)
    requires
        0 <= n <= ss.len(),
        forall |j: int| 0 <= j < ss.len() ==> sym_no_newline(#[trigger] ss[j]),
    ensures
        syms_extra_newlines(ss, n) == 0,
    decreases n,
{
    if n > 0 {
        lemma_syms_extra_zero(ss, n - 1);
        let s = ss[n - 1];
        match s.name {
            Some(nm) => { lemma_nl_count_zero(nm); },
            None => {},
        }
        match (s.file, s.line) {
            (Some(f), Some(l)) => { lemma_nl_count_zero(f); },
            _ => {},
        }
    }
}

proof fn lemma_frames_extra_zero(fs: Seq<FrameView>, n: int)
    requires
        0 <= n <= fs.len(),
        frames_no_newline(fs),
    ensures
        frames_extra_newlines(fs, n) == 0,
    decreases n,
{
    if n > 0 {
        lemma_frames_extra_zero(fs, n - 1);
        let f = fs[n - 1];
        if f.symbols.len() > 0 {
            assert forall |j: int| 0 <= j < f.symbols.len()
                implies sym_no_newline(#[trigger] f.symbols[j]) by {
                assert(sym_no_newline(fs[n - 1].symbols[j]));
            }
            lemma_syms_extra_zero(f.symbols, f.symbols.len() as int);
        }
    }
}

/// Law (corollary): for frames whose symbol names and file paths hold no
/// newline of their own, the trace's newline count is exactly the count
/// formula.
pub proof fn lemma_trace_line_count_clean(fs: Seq<FrameView>)
    requires
        frames_no_newline(fs),
    ensures
        nl_count(trace_str(fs)) == trace_line_count(fs),
{
    lemma_trace_line_count(fs);
    lemma_frames_extra_zero(fs, fs.len() as int);
}

/// Law: a frame that resolved to no symbols renders as exactly one line — it
/// begins with the trace's line break and contains no other — and that line
/// ends with the unresolved marker.
pub proof fn lemma_unresolved_frame(i: int, f: FrameView)
    requires
        i >= 0,
        f.symbols.len() == 0,
    ensures
        nl_count(frame_str(i, f)) == 1,
        frame_str(i, f)[0] == '\n',
        frame_str(i, f).skip(frame_str(i, f).len() - 15) == " - <unresolved>"@,
{
    reveal_strlit(": ");
    reveal_strlit(" - <unresolved>");
    lemma_frame_str_nl(i, f);
    let a3 = seq!['\n'] + pad_left(dec_digits(i as nat), 4) + ": "@ + addr_str(f.ip);
    assert(frame_str(i, f) == a3 + " - <unresolved>"@);
    assert(frame_str(i, f)[0] == a3[0]);
    assert(a3[0] == '\n');
    assert(" - <unresolved>"@.len() == 15);
    assert(frame_str(i, f).skip(frame_str(i, f).len() - 15) =~= " - <unresolved>"@);
}

/// Law: when no captured frame survives the skip count — a capture no deeper
/// than the machinery itself — the rendered trace is the empty string.
pub proof fn lemma_shallow_capture_empty(fs: Seq<FrameView>, skip: int)
    requires
        fs.len() <= skip,
    ensures
        trace_str(visible_frames(fs, skip)) == Seq::<char>::empty(),
{
    if skip <= fs.len() {
        assert(fs.skip(skip) =~= Seq::<FrameView>::empty());
    }
}

/// Law: every symbol line after a frame's first begins on a new line and is
/// indented by exactly `SYMBOL_PAD` spaces; a frame's first symbol line is
/// not indented, beginning directly with the separator after the address
/// field.
pub proof fn lemma_symbol_indent(j: int, s: SymbolView)
    ensures
        j >= 1 ==> sym_str(j, s)[0] == '\n'
            && sym_str(j, s).subrange(1, SYMBOL_PAD as int + 1) == spaces(SYMBOL_PAD as nat),
        j == 0 ==> sym_str(j, s).take(3) == " - "@,
{
    reveal_strlit(" - ");
    reveal_strlit(" - <unknown>");
    let mid = match s.name {
        Some(n) => " - "@ + n,
        None => " - <unknown>"@,
    };
    let loc = match (s.file, s.line) {
        (Some(f), Some(l)) => seq!['\n'] + spaces(SYMBOL_PAD as nat) + "at "@ + f + seq![':']
            + dec_digits(l as nat),
        _ => Seq::<char>::empty(),
    };
    assert(mid.len() >= 3);
    assert(mid[0] == ' ' && mid[1] == '-' && mid[2] == ' ') by {
        match s.name {
            Some(n) => {
                assert(mid[0] == " - "@[0]);
                assert(mid[1] == " - "@[1]);
                assert(mid[2] == " - "@[2]);
            },
            None => {},
        }
    }
    if j >= 1 {
        let pre = seq!['\n'] + spaces(SYMBOL_PAD as nat);
        assert(sym_str(j, s) == pre + mid + loc);
        assert(sym_str(j, s)[0] == pre[0]);
        assert(pre[0] == '\n');
        assert(sym_str(j, s).subrange(1, SYMBOL_PAD as int + 1) =~= spaces(SYMBOL_PAD as nat));
    } else if j == 0 {
        assert(sym_str(j, s) == Seq::<char>::empty() + mid + loc);
        assert(sym_str(j, s).take(3) =~= " - "@);
    }
}

/// Relies on the backtrace crate: `Backtrace::new` captures the current call
/// stack, innermost frame first, and resolves each frame's symbols;
/// `BacktraceFrame::ip`, `BacktraceFrame::symbols`, `BacktraceSymbol::name`,
/// `BacktraceSymbol::filename` and `BacktraceSymbol::lineno` read what was
/// captured. What comes back depends on the live call stack and the debug
/// information at hand, so nothing is promised of the result; the renderer is
/// verified for every frame sequence.
#[verifier::external_body]
pub(crate) fn capture_frames() -> (r: Vec<Frame>)
{
    backtrace::Backtrace::new().frames().iter().map(|f| Frame {
        ip: f.ip() as usize,
        symbols: f.symbols().iter().map(|s| Symbol {
            name: s.name().map(|n| n.to_string()),
            file: s.filename().map(|p| p.display().to_string()),
            line: s.lineno(),
        }).collect(),
    }).collect()
}

} // verus!
