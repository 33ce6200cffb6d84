//! Per-entry walk outcomes and their aggregation into a bounded, ordered
//! list of diagnostics.
//!
//! Each walked filesystem entry yields exactly one [`WalkOutcome`].  The
//! aggregator renders walk and parse failures individually, in encounter
//! order and truncated to the caller's cap; failed file reads are folded into
//! one failure-tree summary instead of being rendered one by one; and
//! whenever any failure exists, one trailing advisory states the true total
//! and how many detailed diagnostics the cap hid.
use crate::keymap::KeymapEntry;
use crate::message;
use crate::text;
use crate::tree;
use vstd::prelude::*;

verus! {

use vstd::string::StringExecFns;

/// How grave a diagnostic is.
pub enum Severity {
    Error,
    Advice,
}

/// A highlighted region of a source blob: a byte offset, a length, and a
/// label put next to the highlight.
pub struct Span {
    pub offset: usize,
    pub length: usize,
    pub label: String,
}

/// What a diagnostic's spans point into.
pub enum SourceBlob {
    /// A file's normalized text, with the path it was read from.
    FileText(String, Vec<u8>),
    /// The process command line, arguments joined with single spaces.
    CommandLine(Vec<u8>),
    /// The rendered failure tree, one line per node.
    Listing(Vec<String>),
}

/// One user-facing description of a failure.
pub struct Diagnostic {
    pub severity: Severity,
    pub message: String,
    pub source: Option<SourceBlob>,
    pub spans: Vec<Span>,
    pub help: Option<String>,
    pub url: Option<String>,
}

/// Which kind of failure the parser reported.
#[derive(Clone, Copy)]
pub enum ErrorCategory {
    /// The text is not well-formed at the syntax level.
    Syntax,
    /// The text is well-formed but its data does not fit the expected shape.
    Data,
    /// Anything else the parser reports without a location.
    Other,
}

/// A structured parse failure: the normalized text it arose in, the 1-based
/// coordinate the parser reported (a column of 0 stands for an absent one),
/// and the parser's message.
pub struct ParseError {
    pub text: Vec<u8>,
    pub category: ErrorCategory,
    pub line: usize,
    pub col: usize,
    pub message: String,
}

/// What one walked filesystem entry came to.
pub enum WalkOutcome {
    /// The walk itself could not proceed past an entry; carries the
    /// underlying error's message.
    WalkFailure(String),
    /// A candidate file could not be read; carries the path's name
    /// components and the underlying error's message.
    IoFailure(Vec<String>, String),
    /// A candidate file's content did not parse; carries the path.
    ParseFailure(String, ParseError),
    /// The entry is no candidate (wrong extension); carries the path.
    Skipped(String),
    /// A candidate file parsed; carries the path and the entries.
    Parsed(String, Vec<KeymapEntry>),
}

/// The outcomes that get a detailed diagnostic of their own.
pub open spec fn is_detailed(o: WalkOutcome) -> bool {
    o is WalkFailure || o is ParseFailure
}

/// The subsequence of outcomes that get detailed diagnostics, in order.
pub open spec fn detailed_of(s: Seq<WalkOutcome>) -> Seq<WalkOutcome>
    decreases s.len(),
{
    if s.len() == 0 {
        seq![]
    } else if is_detailed(s.last()) {
        detailed_of(s.drop_last()).push(s.last())
    } else {
        detailed_of(s.drop_last())
    }
}

/// The failing paths of the read failures, in order, each as its chain of
/// name components.
pub open spec fn io_paths_of(s: Seq<WalkOutcome>) -> Seq<Seq<Seq<char>>>
    decreases s.len(),
{
    if s.len() == 0 {
        seq![]
    } else if s.last() is IoFailure {
        io_paths_of(s.drop_last()).push(s.last()->IoFailure_0.deep_view())
    } else {
        io_paths_of(s.drop_last())
    }
}

/// There are never more detailed diagnostics or failed reads than outcomes.
pub proof fn lemma_counts_bounded(s: Seq<WalkOutcome>)
    ensures
        detailed_of(s).len() <= s.len(),
        io_paths_of(s).len() <= s.len(),
    decreases s.len(),
{
    if s.len() > 0 {
        lemma_counts_bounded(s.drop_last());
    }
}

/// The heading a parse diagnostic carries, selected by error category.
pub open spec fn heading_of(cat: ErrorCategory) -> Seq<char> {
    match cat {
        ErrorCategory::Syntax => "Invalid syntax!"@,
        ErrorCategory::Data => "Invalid data!"@,
        ErrorCategory::Other => "Invalid configuration file!"@,
    }
}

/// What the diagnostic for a walk failure holds: the error's message, a span
/// highlighting the root argument inside the command line, and the fixed
/// help and reference texts.
pub open spec fn walk_diag_ok(
    d: Diagnostic,
    msg: Seq<char>,
    cmdline: Seq<u8>,
    off: nat,
    alen: nat,
) -> bool {
    &&& d.severity is Error
    &&& d.message@ == msg
    &&& (d.source matches Some(SourceBlob::CommandLine(c)) && c@ == cmdline)
    &&& d.spans@.len() == 1
    &&& d.spans@[0].offset == off
    &&& d.spans@[0].length == alen
    &&& d.spans@[0].label@ == "Path is inaccessible"@
    &&& (d.help matches Some(h) && h@ == message::walk_help_text())
    &&& (d.url matches Some(u) && u@ == message::docs_url_text())
}

/// What the diagnostic for a parse failure holds: a heading by category, the
/// file's normalized text as source, one span at the translated offset
/// (none when the parser gave no location), and the file-size help line.
pub open spec fn parse_diag_ok(
    d: Diagnostic,
    path: Seq<char>,
    txt: Seq<u8>,
    cat: ErrorCategory,
    line: nat,
    col: nat,
    msg: Seq<char>,
) -> bool {
    &&& d.severity is Error
    &&& d.message@ == heading_of(cat)
    &&& (d.source matches Some(SourceBlob::FileText(n, t)) && n@ == path && t@ == txt)
    &&& (d.help matches Some(h) && h@ == message::parse_help_text(txt.len()))
    &&& d.url is None
    &&& match cat {
        ErrorCategory::Syntax => d.spans@.len() == 1 && d.spans@[0].offset == text::spec_offset(
            txt,
            line,
            col,
        ) && d.spans@[0].length == 0 && d.spans@[0].label@ == "Error occurred nearby"@,
        ErrorCategory::Data => d.spans@.len() == 1 && d.spans@[0].offset == text::spec_offset(
            txt,
            line,
            col,
        ) && d.spans@[0].length == 0 && d.spans@[0].label@ == msg,
        ErrorCategory::Other => d.spans@.len() == 0,
    }
}

/// What the failed-reads summary diagnostic holds: the count of failed
/// reads, the rendered failure tree as its source, and the fixed help text.
pub open spec fn io_diag_ok(d: Diagnostic, count: nat, rendered: Seq<Seq<char>>) -> bool {
    &&& d.severity is Error
    &&& d.message@ == message::io_message_text(count)
    &&& (d.source matches Some(SourceBlob::Listing(lines)) && lines.deep_view() == rendered)
    &&& d.spans@.len() == 1
    &&& d.spans@[0].offset == 0
    &&& d.spans@[0].length == 0
    &&& d.spans@[0].label@ == Seq::<char>::empty()
    &&& (d.help matches Some(h) && h@ == message::io_help_text())
    &&& d.url is None
}

/// What the trailing advisory holds: the true failure total and the hidden
/// count, and nothing else.
pub open spec fn advice_diag_ok(d: Diagnostic, total: nat, hidden: nat) -> bool {
    &&& d.severity is Advice
    &&& d.message@ == message::advisory_text(total, hidden)
    &&& d.source is None
    &&& d.spans@.len() == 0
    &&& d.help is None
    &&& d.url is None
}

/// What the detailed diagnostic for outcome `o` holds.
pub open spec fn detailed_diag_ok(
    d: Diagnostic,
    o: WalkOutcome,
    cmdline: Seq<u8>,
    off: nat,
    alen: nat,
) -> bool {
    match o {
        WalkOutcome::WalkFailure(m) => walk_diag_ok(d, m@, cmdline, off, alen),
        WalkOutcome::ParseFailure(p, e) => parse_diag_ok(
            d,
            p@,
            e.text@,
            e.category,
            e.line as nat,
            e.col as nat,
            e.message@,
        ),
        _ => false,
    }
}

/// The space byte that joins command-line arguments.
pub const SPACE: u8 = 32;

/// The command line as one byte sequence: every argument, joined with single
/// spaces.
pub open spec fn spec_join_args(a: Seq<Seq<u8>>) -> Seq<u8>
    decreases a.len(),
{
    if a.len() == 0 {
        seq![]
    } else if a.len() == 1 {
        a[0]
    } else {
        spec_join_args(a.drop_last()) + seq![SPACE] + a.last()
    }
}

/// The byte offset at which argument `index` starts within the joined
/// command line: every earlier argument's length plus one joining space
/// each.
pub open spec fn spec_arg_offset(a: Seq<Seq<u8>>, index: int) -> nat
    decreases index,
{
    if index <= 0 {
        0
    } else {
        spec_arg_offset(a, index - 1) + a[index - 1].len() + 1
    }
}

proof fn lemma_arg_offset_join(a: Seq<Seq<u8>>, i: int)
    requires
        0 < i <= a.len(),
    ensures
        spec_arg_offset(a, i) == spec_join_args(a.take(i)).len() + 1,
    decreases i,
{
    if i == 1 {
        assert(spec_arg_offset(a, 0) == 0);
        assert(spec_arg_offset(a, 1) == a[0].len() + 1);
        assert(a.take(1)[0] == a[0]);
        assert(spec_join_args(a.take(1)) == a[0]);
    } else {
        lemma_arg_offset_join(a, i - 1);
        assert(a.take(i).drop_last() =~= a.take(i - 1));
        assert(a.take(i).last() == a[i - 1]);
        assert(spec_join_args(a.take(i)) == spec_join_args(a.take(i - 1)) + seq![SPACE] + a[i
            - 1]);
        assert(spec_join_args(a.take(i)).len() == spec_join_args(a.take(i - 1)).len() + 1 + a[i
            - 1].len());
        assert(spec_arg_offset(a, i) == spec_arg_offset(a, i - 1) + a[i - 1].len() + 1);
    }
}

/// Joins the argument vector with single spaces and locates argument
/// `index` in the joined line: returns the joined line, the argument's byte
/// offset in it, and the argument's byte length.
pub fn command_line_context(args: &Vec<Vec<u8>>, index: usize) -> (r: (Vec<u8>, usize, usize))
    requires
        index < args@.len(),
    ensures
        r.0@ == spec_join_args(args.deep_view()),
        r.1 == spec_arg_offset(args.deep_view(), index as int),
        r.2 == args@[index as int]@.len(),
{
    let ghost a = args.deep_view();
    proof {
        assert(a.len() == args@.len());
        assert forall|m: int| 0 <= m < args@.len() implies #[trigger] a[m] == args@[m]@ by {
            assert(a[m] == args@[m].deep_view());
            assert(args@[m].deep_view() =~= args@[m]@);
        }
    }
    let mut joined: Vec<u8> = Vec::new();
    let mut off: usize = 0;
    let mut alen: usize = 0;
    proof {
        assert(joined@ =~= spec_join_args(a.take(0)));
    }
    let mut i: usize = 0;
    while i < args.len()
        invariant
            i <= a.len(),
            index < a.len(),
            a == args.deep_view(),
            a.len() == args@.len(),
            forall|m: int| 0 <= m < args@.len() ==> #[trigger] a[m] == args@[m]@,
            joined@ == spec_join_args(a.take(i as int)),
            i > index ==> off == spec_arg_offset(a, index as int) && alen == a[index as int].len(),
        decreases a.len() - i,
    {
        if i > 0 {
            joined.push(SPACE);
        }
        if i == index {
            off = joined.len();
            alen = args[i].len();
            proof {
                if i == 0 {
                    assert(off == spec_arg_offset(a, 0));
                } else {
                    lemma_arg_offset_join(a, i as int);
                }
            }
        }
        let ghost base = joined@;
        let arg = &args[i];
        let mut k: usize = 0;
        while k < arg.len()
            invariant
                k <= arg@.len(),
                joined@ == base + arg@.take(k as int),
            decreases arg@.len() - k,
        {
            joined.push(arg[k]);
            proof {
                assert(base + arg@.take(k + 1) =~= (base + arg@.take(k as int)).push(
                    arg@[k as int],
                ));
            }
            k = k + 1;
        }
        proof {
            assert(arg@.take(arg@.len() as int) =~= arg@);
            assert(joined@ =~= base + arg@);
            if i == 0 {
                assert(a.take(1)[0] == a[0]);
                assert(joined@ =~= spec_join_args(a.take(1)));
            } else {
                assert(a.take(i + 1).drop_last() =~= a.take(i as int));
                assert(a.take(i + 1).last() == a[i as int]);
                assert(joined@ =~= spec_join_args(a.take(i as int)) + seq![SPACE] + a[i as int]);
                assert(joined@ =~= spec_join_args(a.take(i + 1)));
            }
        }
        i = i + 1;
    }
    proof {
        assert(a.take(a.len() as int) =~= a);
    }
    (joined, off, alen)
}

/// A copy of a byte vector.
pub fn clone_bytes(v: &Vec<u8>) -> (r: Vec<u8>)
    ensures
        r@ == v@,
{
    let mut r: Vec<u8> = Vec::new();
    let mut i: usize = 0;
    while i < v.len()
        invariant
            i <= v@.len(),
            r@ == v@.take(i as int),
        decreases v@.len() - i,
    {
        r.push(v[i]);
        proof {
            assert(v@.take(i + 1) =~= v@.take(i as int).push(v@[i as int]));
        }
        i = i + 1;
    }
    proof {
        assert(v@.take(v@.len() as int) =~= v@);
    }
    r
}

/// A copy of a vector of strings.
pub fn clone_string_vec(v: &Vec<String>) -> (r: Vec<String>)
    ensures
        r@ == v@,
{
    let mut r: Vec<String> = Vec::new();
    let mut i: usize = 0;
    while i < v.len()
        invariant
            i <= v@.len(),
            r@ == v@.take(i as int),
        decreases v@.len() - i,
    {
        r.push(v[i].clone());
        proof {
            assert(v@.take(i + 1) =~= v@.take(i as int).push(v@[i as int]));
        }
        i = i + 1;
    }
    proof {
        assert(v@.take(v@.len() as int) =~= v@);
    }
    r
}

fn make_walk_diag(msg: String, cmdline: Vec<u8>, off: usize, alen: usize) -> (d: Diagnostic)
    ensures
        walk_diag_ok(d, msg@, cmdline@, off as nat, alen as nat),
{
    let label = String::from_str("Path is inaccessible");
    let span = Span { offset: off, length: alen, label };
    let mut spans: Vec<Span> = Vec::new();
    spans.push(span);
    Diagnostic {
        severity: Severity::Error,
        message: msg,
        source: Some(SourceBlob::CommandLine(cmdline)),
        spans,
        help: Some(
            String::from_str(
                "Look for incorrect spellings or capitalisations. Also, check if the path leads to a DIRECTORY, a file won't work. Don't forget to ensure that all nodes in the path have proper permissions too.",
            ),
        ),
        url: Some(String::from_str("https://www.sublimetext.com/docs/side_by_side.html")),
    }
}

fn make_parse_diag(path: String, e: ParseError) -> (d: Diagnostic)
    ensures
        parse_diag_ok(d, path@, e.text@, e.category, e.line as nat, e.col as nat, e.message@),
{
    let off = text::line_col_to_offset(&e.text, e.line, e.col);
    let help = message::parse_help(e.text.len());
    let mut spans: Vec<Span> = Vec::new();
    let heading: &'static str = match e.category {
        ErrorCategory::Syntax => {
            spans.push(
                Span { offset: off, length: 0, label: String::from_str("Error occurred nearby") },
            );
            "Invalid syntax!"
        },
        ErrorCategory::Data => {
            spans.push(Span { offset: off, length: 0, label: e.message });
            "Invalid data!"
        },
        ErrorCategory::Other => "Invalid configuration file!",
    };
    Diagnostic {
        severity: Severity::Error,
        message: String::from_str(heading),
        source: Some(SourceBlob::FileText(path, e.text)),
        spans,
        help: Some(help),
        url: None,
    }
}

fn make_io_diag(count: usize, lines: Vec<String>) -> (d: Diagnostic)
    ensures
        io_diag_ok(d, count as nat, lines.deep_view()),
{
    let mut spans: Vec<Span> = Vec::new();
    spans.push(Span { offset: 0, length: 0, label: String::new() });
    Diagnostic {
        severity: Severity::Error,
        message: message::io_message(count),
        source: Some(SourceBlob::Listing(lines)),
        spans,
        help: Some(
            String::from_str("Please ensure that all nodes in the path have proper permissions."),
        ),
        url: None,
    }
}

fn make_advisory(total: usize, hidden: usize) -> (d: Diagnostic)
    ensures
        advice_diag_ok(d, total as nat, hidden as nat),
{
    Diagnostic {
        severity: Severity::Advice,
        message: message::advisory_message(total, hidden),
        source: None,
        spans: Vec::new(),
        help: None,
        url: None,
    }
}

fn clone_parse_error(e: &ParseError) -> (r: ParseError)
    ensures
        r.text@ == e.text@,
        r.category == e.category,
        r.line == e.line,
        r.col == e.col,
        r.message@ == e.message@,
{
    ParseError {
        text: clone_bytes(&e.text),
        category: e.category,
        line: e.line,
        col: e.col,
        message: e.message.clone(),
    }
}

/// Turns the full ordered sequence of walk outcomes into the final list of
/// diagnostics.
///
/// With `F` detailed failures (walk and parse failures) and `K` failed
/// reads, the result is empty exactly when `F == 0 && K == 0`; otherwise it
/// holds, in order: one failure-tree summary when `K > 0`, then exactly
/// `min(cap, F)` detailed diagnostics in encounter order, then exactly one
/// advisory whose stated total is `F` plus one for the summary when `K > 0`
/// and whose stated hidden count is `F - min(cap, F)`.
///
/// `cmdline`, `arg_off` and `arg_len` name the byte span of the root
/// argument within the joined command line, as walk-failure diagnostics
/// point there; `root` names the failure tree's root.
pub fn aggregate(
    outcomes: &Vec<WalkOutcome>,
    cap: usize,
    root: &String,
    cmdline: &Vec<u8>,
    arg_off: usize,
    arg_len: usize,
) -> (out: Vec<Diagnostic>)
    requires
        outcomes@.len() < usize::MAX,
    ensures
        ({
            let det = detailed_of(outcomes@);
            let ios = io_paths_of(outcomes@);
            let shown = if cap < det.len() {
                cap as nat
            } else {
                det.len()
            };
            let io_extra: nat = if ios.len() > 0 {
                1nat
            } else {
                0nat
            };
            &&& (det.len() == 0 && ios.len() == 0 ==> out@.len() == 0)
            &&& (det.len() > 0 || ios.len() > 0 ==> {
                &&& out@.len() == io_extra + shown + 1
                &&& (ios.len() > 0 ==> io_diag_ok(
                    out@[0],
                    ios.len(),
                    tree::spec_render(tree::spec_tree_of(root@, ios)),
                ))
                &&& (forall|k: int|
                    0 <= k < shown ==> detailed_diag_ok(
                        #[trigger] out@[io_extra + k],
                        det[k],
                        cmdline@,
                        arg_off as nat,
                        arg_len as nat,
                    ))
                &&& advice_diag_ok(out@[out@.len() - 1], det.len() + io_extra, (det.len()
                    - shown) as nat)
            })
        }),
{
    let ghost oseq = outcomes@;
    let mut detailed: Vec<Diagnostic> = Vec::new();
    let mut io_paths: Vec<Vec<String>> = Vec::new();
    proof {
        assert(oseq.take(0) =~= Seq::<WalkOutcome>::empty());
        assert(io_paths.deep_view() =~= io_paths_of(oseq.take(0)));
    }
    let mut i: usize = 0;
    while i < outcomes.len()
        invariant
            i <= oseq.len(),
            outcomes@ == oseq,
            detailed@.len() == detailed_of(oseq.take(i as int)).len(),
            forall|k: int|
                0 <= k < detailed@.len() ==> detailed_diag_ok(
                    #[trigger] detailed@[k],
                    detailed_of(oseq.take(i as int))[k],
                    cmdline@,
                    arg_off as nat,
                    arg_len as nat,
                ),
            io_paths.deep_view() == io_paths_of(oseq.take(i as int)),
        decreases oseq.len() - i,
    {
        let ghost prefix = oseq.take(i as int);
        let ghost prefix1 = oseq.take(i + 1);
        proof {
            assert(prefix1.drop_last() =~= prefix);
            assert(prefix1.last() == oseq[i as int]);
        }
        match &outcomes[i] {
            WalkOutcome::WalkFailure(m) => {
                let d = make_walk_diag(m.clone(), clone_bytes(cmdline), arg_off, arg_len);
                detailed.push(d);
            },
            WalkOutcome::ParseFailure(p, e) => {
                let d = make_parse_diag(p.clone(), clone_parse_error(e));
                detailed.push(d);
            },
            WalkOutcome::IoFailure(path, _m) => {
                io_paths.push(clone_string_vec(path));
                proof {
                    assert(io_paths.deep_view() =~= io_paths_of(prefix).push(
                        oseq[i as int]->IoFailure_0.deep_view(),
                    ));
                }
            },
            WalkOutcome::Skipped(_p) => {
            },
            WalkOutcome::Parsed(_p, _entries) => {
            },
        }
        i = i + 1;
    }
    proof {
        assert(oseq.take(oseq.len() as int) =~= oseq);
        lemma_counts_bounded(oseq);
    }
    let total_detailed = detailed.len();
    let has_io = io_paths.len() > 0;
    let mut out: Vec<Diagnostic> = Vec::new();
    if total_detailed == 0 && !has_io {
        return out;
    }
    if has_io {
        let count = io_paths.len();
        let lines = tree::from(root, &io_paths);
        out.push(make_io_diag(count, lines));
    }
    let shown = if cap < total_detailed {
        cap
    } else {
        total_detailed
    };
    let ghost detailed_full = detailed@;
    detailed.truncate(shown);
    out.append(&mut detailed);
    let total = if has_io {
        total_detailed + 1
    } else {
        total_detailed
    };
    let hidden = total_detailed - shown;
    out.push(make_advisory(total, hidden));
    proof {
        let det = detailed_of(oseq);
        let ios = io_paths_of(oseq);
        let io_extra: nat = if ios.len() > 0 {
            1nat
        } else {
            0nat
        };
        assert(out@.len() == io_extra + shown + 1);
        assert forall|k: int| 0 <= k < shown implies detailed_diag_ok(
            #[trigger] out@[io_extra + k],
            det[k],
            cmdline@,
            arg_off as nat,
            arg_len as nat,
        ) by {
            assert(out@[io_extra + k] == detailed_full[k]);
        }
    }
    out
}

} // verus!
