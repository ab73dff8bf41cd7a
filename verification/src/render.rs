//! The progress aggregator and its fixed-height terminal frames.
//!
//! One aggregator owns the per-source progress state. The set of source URIs
//! is fixed when the aggregator is created, so every frame has exactly one
//! line per known source, and before a new frame is drawn exactly as many
//! cursor-up-and-clear-line pairs are emitted as the previous frame printed.
//! A source's recorded phase never regresses: an event for an earlier phase
//! than the one on record is ignored.

use vstd::prelude::*;

use crate::classify::str_eq;
use crate::progress::{pct_spec, phase_counts, phase_rank, GitPhase};

verus! {

/// The decimal digit character for `d`.
pub open spec fn digit_char(d: int) -> char {
    if d == 0 {
        '0'
    } else if d == 1 {
        '1'
    } else if d == 2 {
        '2'
    } else if d == 3 {
        '3'
    } else if d == 4 {
        '4'
    } else if d == 5 {
        '5'
    } else if d == 6 {
        '6'
    } else if d == 7 {
        '7'
    } else if d == 8 {
        '8'
    } else {
        '9'
    }
}

/// The decimal representation of `n`, most significant digit first.
pub open spec fn dec_str_of(n: nat) -> Seq<char>
    decreases n,
{
    if n < 10 {
        seq![digit_char(n as int)]
    } else {
        dec_str_of(n / 10) + seq![digit_char((n % 10) as int)]
    }
}

/// One decimal digit as a string slice.
fn digit_str(d: u64) -> (r: &'static str)
    requires
        d < 10,
    ensures
        r@ == seq![digit_char(d as int)],
{
    proof {
        reveal_strlit("0");
        reveal_strlit("1");
        reveal_strlit("2");
        reveal_strlit("3");
        reveal_strlit("4");
        reveal_strlit("5");
        reveal_strlit("6");
        reveal_strlit("7");
        reveal_strlit("8");
        reveal_strlit("9");
    }
    let r = match d {
        0 => "0",
        1 => "1",
        2 => "2",
        3 => "3",
        4 => "4",
        5 => "5",
        6 => "6",
        7 => "7",
        8 => "8",
        _ => "9",
    };
    proof {
        assert(r@ =~= seq![digit_char(d as int)]);
    }
    r
}

/// Renders `n` in decimal.
pub fn u64_to_string(n: u64) -> (r: String)
    ensures
        r@ == dec_str_of(n as nat),
    decreases n,
{
    if n < 10 {
        String::from_str(digit_str(n))
    } else {
        let mut s = u64_to_string(n / 10);
        s.append(digit_str(n % 10));
        s
    }
}

/// The phase a line is rendered for: a source without any observed event yet
/// is shown as an object transfer that has not started.
pub open spec fn effective_phase(st: Option<GitPhase>) -> GitPhase {
    match st {
        None => GitPhase::Fetch(0, 0),
        Some(p) => p,
    }
}

pub open spec fn phase_label(p: GitPhase) -> Seq<char> {
    match p {
        GitPhase::Fetch(_, _) => " => @Fetching "@,
        GitPhase::DeltaResolve(_, _) => " => #Resolving Deltas "@,
        GitPhase::Checkout(_, _) => " => ^Checking out "@,
    }
}

pub open spec fn phase_unit(p: GitPhase) -> Seq<char> {
    match p {
        GitPhase::Fetch(_, _) => " bytes\n"@,
        GitPhase::DeltaResolve(_, _) => " deltas\n"@,
        GitPhase::Checkout(_, _) => " objects\n"@,
    }
}

/// One frame line: the source URI, a phase label (or the completed variant at
/// exactly 100%), the clamped percentage and the raw counters.
pub open spec fn phase_line(uri: Seq<char>, p: GitPhase) -> Seq<char> {
    let c = phase_counts(p).0;
    let t = phase_counts(p).1;
    if pct_spec(c, t) == 100 {
        uri + " => Done - "@ + dec_str_of(c) + "/"@ + dec_str_of(t) + "\n"@
    } else {
        uri + phase_label(p) + dec_str_of(pct_spec(c, t) as nat) + "% - "@ + dec_str_of(c) + "/"@
            + dec_str_of(t) + phase_unit(p)
    }
}

pub open spec fn line_spec(uri: Seq<char>, st: Option<GitPhase>) -> Seq<char> {
    phase_line(uri, effective_phase(st))
}

/// Renders the frame line for one source.
pub fn render_line(uri: &str, st: &Option<GitPhase>) -> (r: String)
    ensures
        r@ == line_spec(uri@, *st),
{
    let p = match st {
        Some(p) => *p,
        None => GitPhase::Fetch(0, 0),
    };
    let (c, t, label, unit) = match p {
        GitPhase::Fetch(c, t) => (c, t, " => @Fetching ", " bytes\n"),
        GitPhase::DeltaResolve(c, t) => (c, t, " => #Resolving Deltas ", " deltas\n"),
        GitPhase::Checkout(c, t) => (c, t, " => ^Checking out ", " objects\n"),
    };
    let pct = crate::progress::percent(c, t);
    let mut out = String::from_str(uri);
    if pct == 100 {
        out.append(" => Done - ");
        let cs = u64_to_string(c as u64);
        out.append(cs.as_str());
        out.append("/");
        let ts = u64_to_string(t as u64);
        out.append(ts.as_str());
        out.append("\n");
    } else {
        out.append(label);
        let ps = u64_to_string(pct as u64);
        out.append(ps.as_str());
        out.append("% - ");
        let cs = u64_to_string(c as u64);
        out.append(cs.as_str());
        out.append("/");
        let ts = u64_to_string(t as u64);
        out.append(ts.as_str());
        out.append(unit);
    }
    proof {
        assert(out@ =~= line_spec(uri@, *st));
    }
    out
}

/// The control sequence erasing `n` previously printed lines: one
/// cursor-up-and-clear-line pair per line.
pub open spec fn erase_seq_spec(n: nat) -> Seq<char>
    decreases n,
{
    if n == 0 {
        Seq::<char>::empty()
    } else {
        erase_seq_spec((n - 1) as nat) + "\u{1b}[1A\u{1b}[2K"@
    }
}

/// Law: the erase sequence for `n` lines holds exactly `n` cursor-up-and-clear
/// pairs, eight characters each.
pub proof fn lemma_erase_len(n: nat)
    ensures
        erase_seq_spec(n).len() == 8 * n,
    decreases n,
{
    reveal_strlit("\u{1b}[1A\u{1b}[2K");
    if n > 0 {
        lemma_erase_len((n - 1) as nat);
    }
}

/// Builds the erase sequence for `n` lines.
pub fn erase_codes(n: usize) -> (r: String)
    ensures
        r@ == erase_seq_spec(n as nat),
{
    let mut out = String::new();
    let mut i: usize = 0;
    while i < n
        invariant
            0 <= i <= n,
            out@ == erase_seq_spec(i as nat),
        decreases n - i,
    {
        out.append("\u{1b}[1A\u{1b}[2K");
        i += 1;
    }
    out
}

/// First position of `uri` in `sources`, or `-1` when it is not there.
pub open spec fn find_uri(sources: Seq<Seq<char>>, uri: Seq<char>) -> int
    decreases sources.len(),
{
    if sources.len() == 0 {
        -1
    } else if sources[0] == uri {
        0
    } else if find_uri(sources.drop_first(), uri) == -1 {
        -1
    } else {
        find_uri(sources.drop_first(), uri) + 1
    }
}

pub proof fn lemma_find_uri_props(sources: Seq<Seq<char>>, uri: Seq<char>)
    ensures
        -1 <= find_uri(sources, uri) < sources.len(),
        find_uri(sources, uri) >= 0 ==> sources[find_uri(sources, uri)] == uri,
        forall|j: int| 0 <= j < find_uri(sources, uri) ==> sources[j] != uri,
        find_uri(sources, uri) == -1 ==> forall|j: int|
            0 <= j < sources.len() ==> sources[j] != uri,
    decreases sources.len(),
{
    if sources.len() > 0 && sources[0] != uri {
        lemma_find_uri_props(sources.drop_first(), uri);
        assert forall|j: int| 1 <= j < sources.len() implies sources.drop_first()[j - 1]
            == sources[j] by {}
    }
}

/// What one event does to a source's recorded state: a fresh event replaces
/// the record unless it belongs to an earlier phase than the one on record.
pub open spec fn apply_event(st: Option<GitPhase>, ev: GitPhase) -> Option<GitPhase> {
    match st {
        None => Some(ev),
        Some(p) => if phase_rank(ev) >= phase_rank(p) {
            Some(ev)
        } else {
            Some(p)
        },
    }
}

/// Law: a source's recorded phase never regresses under any event.
pub proof fn lemma_phase_never_regresses(st: Option<GitPhase>, ev: GitPhase)
    ensures
        apply_event(st, ev) is Some,
        st is Some ==> phase_rank(apply_event(st, ev)->0) >= phase_rank(st->0),
{
}

/// Law: within one phase, an event whose current counter has not decreased
/// and whose total is unchanged never lowers the displayed percentage. (An
/// upward revision of the total itself may lower it; only the clamp to
/// [0, 100] holds across such revisions.)
pub proof fn lemma_display_monotonic(st: Option<GitPhase>, ev: GitPhase)
    requires
        st is Some,
        phase_rank(ev) == phase_rank(st->0),
        phase_counts(ev).1 == phase_counts(st->0).1,
        phase_counts(ev).0 >= phase_counts(st->0).0,
    ensures
        apply_event(st, ev) == Some(ev),
        pct_spec(phase_counts(ev).0, phase_counts(ev).1) >= pct_spec(
            phase_counts(st->0).0,
            phase_counts(st->0).1,
        ),
{
    crate::progress::lemma_pct_monotonic(
        phase_counts(st->0).0,
        phase_counts(ev).0,
        phase_counts(ev).1,
    );
}

fn phase_rank_exec(p: &GitPhase) -> (r: u8)
    ensures
        r as int == phase_rank(*p),
{
    match p {
        GitPhase::Fetch(_, _) => 0,
        GitPhase::DeltaResolve(_, _) => 1,
        GitPhase::Checkout(_, _) => 2,
    }
}

/// The single consumer of progress events: it owns the per-source state and
/// repaints a fixed-height terminal region, one line per known source.
pub struct Aggregator {
    sources: Vec<String>,
    states: Vec<Option<GitPhase>>,
    prev_lines: usize,
}

impl Aggregator {
    /// The fixed source URIs, in display order.
    pub closed spec fn src_views(self) -> Seq<Seq<char>> {
        self.sources.deep_view()
    }

    /// The per-source progress state, parallel to `src_views`.
    pub closed spec fn states_view(self) -> Seq<Option<GitPhase>> {
        self.states@
    }

    /// The number of lines the previous frame printed.
    pub closed spec fn prev_height(self) -> nat {
        self.prev_lines as nat
    }

    pub open spec fn wf(self) -> bool {
        self.states_view().len() == self.src_views().len()
    }

    /// Creates an aggregator for a fixed set of known sources, none of which
    /// has reported progress yet, with no previous frame to erase.
    pub fn new(sources: Vec<String>) -> (a: Aggregator)
        ensures
            a.wf(),
            a.src_views() == sources.deep_view(),
            a.states_view().len() == sources@.len(),
            forall|k: int| 0 <= k < sources@.len() ==> #[trigger] a.states_view()[k] is None,
            a.prev_height() == 0,
    {
        let n = sources.len();
        let mut states: Vec<Option<GitPhase>> = Vec::new();
        let mut i: usize = 0;
        while i < n
            invariant
                0 <= i <= n,
                states@.len() == i,
                forall|k: int| 0 <= k < i ==> #[trigger] states@[k] is None,
            decreases n - i,
        {
            states.push(None);
            i += 1;
        }
        Aggregator { sources, states, prev_lines: 0 }
    }

    /// Records one progress event. The event updates the first source with a
    /// matching URI, unless it would regress that source's phase; an event
    /// for an unknown URI changes nothing.
    pub fn update(&mut self, uri: &str, ev: GitPhase)
        requires
            old(self).wf(),
        ensures
            final(self).wf(),
            final(self).src_views() == old(self).src_views(),
            final(self).prev_height() == old(self).prev_height(),
            ({
                let j = find_uri(old(self).src_views(), uri@);
                if j >= 0 {
                    final(self).states_view() == old(self).states_view().update(
                        j,
                        apply_event(old(self).states_view()[j], ev),
                    )
                } else {
                    final(self).states_view() == old(self).states_view()
                }
            }),
    {
        let ghost srcs = self.src_views();
        let n = self.sources.len();
        proof {
            assert(srcs.len() == n);
        }
        let mut i: usize = 0;
        while i < n
            invariant
                old(self).wf(),
                *self == *old(self),
                srcs == self.src_views(),
                n == self.sources@.len(),
                srcs.len() == n,
                forall|k: int| 0 <= k < srcs.len() ==> #[trigger] srcs[k] == self.sources@[k]@,
                0 <= i <= n,
                forall|j: int| 0 <= j < i ==> #[trigger] srcs[j] != uri@,
            decreases n - i,
        {
            if str_eq(self.sources[i].as_str(), uri) {
                proof {
                    lemma_find_uri_unique(srcs, uri@, i as int);
                }
                let cur = self.states[i];
                let next = match cur {
                    None => Some(ev),
                    Some(p) => if phase_rank_exec(&ev) >= phase_rank_exec(&p) {
                        Some(ev)
                    } else {
                        Some(p)
                    },
                };
                self.states.set(i, next);
                return ;
            }
            i += 1;
        }
        proof {
            lemma_find_uri_props(srcs, uri@);
            if find_uri(srcs, uri@) >= 0 {
                assert(srcs[find_uri(srcs, uri@)] == uri@);
                assert(false);
            }
        }
    }

    /// Produces the erase sequence for the previous frame and the lines of
    /// the new frame: always exactly one line per known source, so the frame
    /// height never changes across a run.
    pub fn render_frame(&mut self) -> (r: (String, Vec<String>))
        requires
            old(self).wf(),
        ensures
            final(self).wf(),
            final(self).src_views() == old(self).src_views(),
            final(self).states_view() == old(self).states_view(),
            r.0@ == erase_seq_spec(old(self).prev_height()),
            r.1@.len() == old(self).src_views().len(),
            forall|k: int|
                0 <= k < r.1@.len() ==> (#[trigger] r.1@[k])@ == line_spec(
                    old(self).src_views()[k],
                    old(self).states_view()[k],
                ),
            final(self).prev_height() == r.1@.len(),
    {
        let erase = erase_codes(self.prev_lines);
        let mut lines: Vec<String> = Vec::new();
        let n = self.sources.len();
        proof {
            assert(self.src_views().len() == n);
        }
        let mut i: usize = 0;
        while i < n
            invariant
                old(self).wf(),
                *self == *old(self),
                n == self.sources@.len(),
                self.src_views().len() == n,
                self.states_view().len() == n,
                forall|k: int|
                    0 <= k < n ==> #[trigger] self.src_views()[k] == self.sources@[k]@,
                0 <= i <= n,
                lines@.len() == i,
                forall|k: int|
                    0 <= k < i ==> (#[trigger] lines@[k])@ == line_spec(
                        self.src_views()[k],
                        self.states_view()[k],
                    ),
            decreases n - i,
        {
            let line = render_line(self.sources[i].as_str(), &self.states[i]);
            lines.push(line);
            i += 1;
        }
        self.prev_lines = lines.len();
        (erase, lines)
    }
}

/// Characterization used to pin the first matching index down.
pub proof fn lemma_find_uri_unique(sources: Seq<Seq<char>>, uri: Seq<char>, i: int)
    requires
        0 <= i < sources.len(),
        sources[i] == uri,
        forall|j: int| 0 <= j < i ==> sources[j] != uri,
    ensures
        find_uri(sources, uri) == i,
{
    lemma_find_uri_props(sources, uri);
}

} // verus!
