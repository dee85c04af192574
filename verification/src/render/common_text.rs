//! The whitespace-and-indentation normalizer shared by the Markdown and
//! plain-text formats.
//!
//! The normalizer is a character automaton. Mid-line it passes characters
//! through. At the start of a line it holds one pending blank line back:
//! the blank line's newline is only written once something follows it, so
//! a trailing blank line never reaches the output. The first character of
//! each content line is preceded by `indent_size * (level - 1)` spaces,
//! where `level` counts the nesting scopes entered (levels zero and one
//! are both un-indented).

use vstd::prelude::*;
use vstd::string::*;

verus! {

/// Where the normalizer stands relative to line starts.
#[derive(Debug, Clone, Copy, PartialEq, Eq)]
enum NewlineState {
    /// Mid-line: characters pass through.
    Unfinished,
    /// At the start of a line; `needs_flush` records a held-back blank
    /// line that must be written before any further output.
    Starting { needs_flush: bool },
}

/// The normalizer's state: position in the line, nesting level, and the
/// configured spaces per indentation step.
#[derive(Debug, Clone, Copy, PartialEq, Eq)]
pub struct CommonText {
    newline: NewlineState,
    level: u32,
    indent_size: u32,
}

/// `n` spaces.
pub open spec fn spaces(n: int) -> Seq<char> {
    Seq::new(if n < 0 { 0nat } else { n as nat }, |i: int| ' ')
}

/// The number of leading spaces written before a content line.
pub closed spec fn indent_amount(st: CommonText) -> int {
    if st.level == 0 {
        0
    } else {
        (st.indent_size as int) * (st.level as int - 1)
    }
}

/// The state after the normalizer has consumed one character.
closed spec fn ct_step_state(st: CommonText, c: char) -> CommonText {
    match st.newline {
        NewlineState::Unfinished => {
            if c == '\n' {
                CommonText { newline: NewlineState::Starting { needs_flush: false }, ..st }
            } else {
                st
            }
        },
        NewlineState::Starting { .. } => {
            if c == '\n' {
                CommonText { newline: NewlineState::Starting { needs_flush: true }, ..st }
            } else {
                CommonText { newline: NewlineState::Unfinished, ..st }
            }
        },
    }
}

/// What the normalizer emits for one consumed character.
closed spec fn ct_step_out(st: CommonText, c: char) -> Seq<char> {
    match st.newline {
        NewlineState::Unfinished => seq![c],
        NewlineState::Starting { needs_flush } => {
            let flush: Seq<char> = if needs_flush {
                seq!['\n']
            } else {
                Seq::empty()
            };
            if c == '\n' {
                flush
            } else {
                flush + spaces(indent_amount(st)) + seq![c]
            }
        },
    }
}

/// The state after a whole chunk has been consumed.
pub closed spec fn ct_write_state(st: CommonText, s: Seq<char>) -> CommonText
    decreases s.len(),
{
    if s.len() == 0 {
        st
    } else {
        ct_write_state(ct_step_state(st, s[0]), s.skip(1))
    }
}

/// What a whole chunk emits.
pub closed spec fn ct_write_out(st: CommonText, s: Seq<char>) -> Seq<char>
    decreases s.len(),
{
    if s.len() == 0 {
        Seq::empty()
    } else {
        ct_step_out(st, s[0]) + ct_write_out(ct_step_state(st, s[0]), s.skip(1))
    }
}

/// The state after one more scope has been entered: the level rises by
/// one (it stays put at the type's maximum).
pub closed spec fn ct_enter(st: CommonText) -> CommonText {
    if st.level < u32::MAX {
        CommonText { level: (st.level + 1) as u32, ..st }
    } else {
        st
    }
}

/// The state after a scope has been left: the level falls by one (it
/// stays put at zero).
pub closed spec fn ct_exit(st: CommonText) -> CommonText {
    if st.level > 0 {
        CommonText { level: (st.level - 1) as u32, ..st }
    } else {
        st
    }
}

/// The state a fresh normalizer starts in.
pub closed spec fn ct_initial(indent_size: u32) -> CommonText {
    CommonText {
        newline: NewlineState::Starting { needs_flush: false },
        level: 0,
        indent_size,
    }
}

proof fn lemma_ct_write_snoc(st: CommonText, s: Seq<char>, c: char)
    ensures
        ct_write_state(st, s.push(c)) == ct_step_state(ct_write_state(st, s), c),
        ct_write_out(st, s.push(c)) == ct_write_out(st, s) + ct_step_out(
            ct_write_state(st, s),
            c,
        ),
    decreases s.len(),
{
    if s.len() == 0 {
        let st1 = ct_step_state(st, c);
        assert(s.push(c)[0] == c);
        assert(s.push(c).skip(1) =~= Seq::<char>::empty());
        assert(ct_write_state(st1, s.push(c).skip(1)) == st1);
        assert(ct_write_out(st1, s.push(c).skip(1)) =~= Seq::<char>::empty());
        assert(ct_write_out(st, s.push(c)) =~= ct_step_out(st, c));
        assert(ct_write_out(st, s) + ct_step_out(ct_write_state(st, s), c)
            =~= ct_step_out(st, c));
    } else {
        lemma_ct_write_snoc(ct_step_state(st, s[0]), s.skip(1), c);
        assert(s.push(c)[0] == s[0]);
        assert(s.push(c).skip(1) =~= s.skip(1).push(c));
        assert(ct_write_out(st, s) + ct_step_out(ct_write_state(st, s), c) =~= ct_step_out(
            st,
            s[0],
        ) + (ct_write_out(ct_step_state(st, s[0]), s.skip(1)) + ct_step_out(
            ct_write_state(st, s),
            c,
        )));
    }
}

/// One step of output interleaving: either a chunk written through the
/// normalizer, or a nesting scope entered or left.
pub enum TextEvent {
    /// A chunk handed to the normalizer.
    Write(Seq<char>),
    /// A nesting scope entered.
    Enter,
    /// A nesting scope left.
    Exit,
}

/// The state after one event.
pub open spec fn step_state(st: CommonText, ev: TextEvent) -> CommonText {
    match ev {
        TextEvent::Write(s) => ct_write_state(st, s),
        TextEvent::Enter => ct_enter(st),
        TextEvent::Exit => ct_exit(st),
    }
}

/// What one event emits.
pub open spec fn step_out(st: CommonText, ev: TextEvent) -> Seq<char> {
    match ev {
        TextEvent::Write(s) => ct_write_out(st, s),
        TextEvent::Enter => Seq::empty(),
        TextEvent::Exit => Seq::empty(),
    }
}

/// The state after a sequence of events.
pub open spec fn run_state(st: CommonText, evs: Seq<TextEvent>) -> CommonText
    decreases evs.len(),
{
    if evs.len() == 0 {
        st
    } else {
        run_state(step_state(st, evs[0]), evs.skip(1))
    }
}

/// What a sequence of events emits, in order.
pub open spec fn run_out(st: CommonText, evs: Seq<TextEvent>) -> Seq<char>
    decreases evs.len(),
{
    if evs.len() == 0 {
        Seq::empty()
    } else {
        step_out(st, evs[0]) + run_out(step_state(st, evs[0]), evs.skip(1))
    }
}

/// Running concatenated event sequences is running them one after the
/// other.
pub proof fn lemma_run_concat(st: CommonText, a: Seq<TextEvent>, b: Seq<TextEvent>)
    ensures
        run_state(st, a + b) == run_state(run_state(st, a), b),
        run_out(st, a + b) == run_out(st, a) + run_out(run_state(st, a), b),
    decreases a.len(),
{
    if a.len() == 0 {
        assert(a + b =~= b);
        assert(run_out(st, a) + run_out(run_state(st, a), b) =~= run_out(st, b));
    } else {
        lemma_run_concat(step_state(st, a[0]), a.skip(1), b);
        assert((a + b)[0] == a[0]);
        assert((a + b).skip(1) =~= a.skip(1) + b);
        assert(run_out(st, a) + run_out(run_state(st, a), b) =~= step_out(st, a[0]) + (run_out(
            step_state(st, a[0]),
            a.skip(1),
        ) + run_out(run_state(st, a), b)));
    }
}

/// What a render call through a normalizing format promises: starting
/// from state `st0` with output `out0`, it leaves state `st1` and output
/// `out1`, exactly as if the events `evs` had been run.
pub open spec fn renders(
    st0: CommonText,
    out0: Seq<char>,
    st1: CommonText,
    out1: Seq<char>,
    evs: Seq<TextEvent>,
) -> bool {
    st1 == run_state(st0, evs) && out1 == out0 + run_out(st0, evs)
}

/// A single event runs as one step.
pub proof fn lemma_run_one(st: CommonText, ev: TextEvent)
    ensures
        run_state(st, seq![ev]) == step_state(st, ev),
        run_out(st, seq![ev]) == step_out(st, ev),
{
    let rest = seq![ev].skip(1);
    assert(rest =~= Seq::<TextEvent>::empty());
    assert(seq![ev][0] == ev);
    assert(run_state(step_state(st, ev), rest) == step_state(st, ev));
    assert(run_out(step_state(st, ev), rest) =~= Seq::<char>::empty());
    assert(run_out(st, seq![ev]) =~= step_out(st, ev));
}

/// Appends `count` spaces to `out`.
fn write_spaces(out: &mut String, count: u64)
    ensures
        final(out)@ == old(out)@ + spaces(count as int),
{
    let mut j: u64 = 0;
    while j < count
        invariant
            0 <= j <= count,
            out@ == old(out)@ + spaces(j as int),
        decreases count - j,
    {
        out.append(" ");
        proof {
            reveal_strlit(" ");
            assert(out@ =~= old(out)@ + spaces(j as int + 1));
        }
        j += 1;
    }
}

impl CommonText {
    /// A fresh normalizer with the given spaces-per-step, at the start of
    /// a line and at level zero.
    pub fn new(indent_size: u32) -> (r: CommonText)
        ensures
            r == ct_initial(indent_size),
    {
        CommonText {
            newline: NewlineState::Starting { needs_flush: false },
            level: 0,
            indent_size,
        }
    }

    /// Enters one nesting scope.
    pub fn enter(&mut self)
        ensures
            *final(self) == ct_enter(*old(self)),
    {
        if self.level < u32::MAX {
            self.level = self.level + 1;
        }
    }

    /// Leaves one nesting scope.
    pub fn exit(&mut self)
        ensures
            *final(self) == ct_exit(*old(self)),
    {
        if self.level > 0 {
            self.level = self.level - 1;
        }
    }

    /// Writes one chunk through the normalizer, appending the normalized
    /// characters to `out`.
    pub fn write_str(&mut self, input: &str, out: &mut String)
        ensures
            *final(self) == ct_write_state(*old(self), input@),
            final(out)@ == old(out)@ + ct_write_out(*old(self), input@),
    {
        let ghost s = input@;
        let ghost st0 = *self;
        let ghost out0 = out@;
        let n = input.unicode_len();
        let mut i: usize = 0;
        while i < n
            invariant
                s == input@,
                n == s.len(),
                0 <= i <= n,
                *self == ct_write_state(st0, s.take(i as int)),
                out@ == out0 + ct_write_out(st0, s.take(i as int)),
            decreases n - i,
        {
            let c = input.get_char(i);
            let ghost st_here = *self;
            let is_starting = match self.newline {
                NewlineState::Unfinished => false,
                NewlineState::Starting { .. } => true,
            };
            if !is_starting {
                push_char(out, c);
                if c == '\n' {
                    self.newline = NewlineState::Starting { needs_flush: false };
                }
                proof {
                    assert(*self == ct_step_state(st_here, c));
                    assert(out@ =~= out0 + ct_write_out(st0, s.take(i as int)) + ct_step_out(
                        st_here,
                        c,
                    ));
                }
            } else {
                let needs_flush = match self.newline {
                    NewlineState::Unfinished => false,
                    NewlineState::Starting { needs_flush } => needs_flush,
                };
                if needs_flush {
                    push_char(out, '\n');
                }
                if c == '\n' {
                    self.newline = NewlineState::Starting { needs_flush: true };
                    proof {
                        assert(*self == ct_step_state(st_here, c));
                        assert(out@ =~= out0 + ct_write_out(st0, s.take(i as int))
                            + ct_step_out(st_here, c));
                    }
                } else {
                    let count: u64 = if self.level == 0 {
                        0
                    } else {
                        proof {
                            let a = self.indent_size as int;
                            let b = self.level as int - 1;
                            assert(a * b < 0x1_0000_0000_0000_0000) by (nonlinear_arith)
                                requires
                                    0 <= a < 0x1_0000_0000,
                                    0 <= b < 0x1_0000_0000,
                            ;
                        }
                        (self.indent_size as u64) * ((self.level - 1) as u64)
                    };
                    proof {
                        assert(count as int == indent_amount(st_here));
                    }
                    write_spaces(out, count);
                    push_char(out, c);
                    self.newline = NewlineState::Unfinished;
                    proof {
                        assert(*self == ct_step_state(st_here, c));
                        assert(out@ =~= out0 + ct_write_out(st0, s.take(i as int))
                            + ct_step_out(st_here, c));
                    }
                }
            }
            proof {
                lemma_ct_write_snoc(st0, s.take(i as int), c);
                assert(s.take(i as int).push(c) =~= s.take(i + 1));
                assert(out@ =~= out0 + ct_write_out(st0, s.take(i + 1)));
            }
            i += 1;
        }
        proof {
            assert(s.take(n as int) =~= s);
        }
    }
}

impl Default for CommonText {
    /// The default normalizer indents by four spaces per step.
    fn default() -> (r: CommonText)
        ensures
            r == ct_initial(4),
    {
        CommonText::new(4)
    }
}

/// Relies on `String::push` of std: appends exactly one character at the
/// end of the string.
#[verifier::external_body]
pub(crate) fn push_char(out: &mut String, c: char)
    ensures
        final(out)@ == old(out)@ + seq![c],
{
    out.push(c);
}

/// The nesting level of a normalizer state.
pub closed spec fn ct_level(st: CommonText) -> u32 {
    st.level
}

/// The configured spaces per indentation step.
pub closed spec fn ct_indent_size(st: CommonText) -> u32 {
    st.indent_size
}

/// Whether the state stands at the start of a line with no blank line
/// held back; fresh normalizers start this way.
pub closed spec fn ct_line_start_clean(st: CommonText) -> bool {
    st.newline == (NewlineState::Starting { needs_flush: false })
}

/// A fresh normalizer stands at a clean line start, at level zero.
pub proof fn lemma_ct_initial(indent_size: u32)
    ensures
        ct_line_start_clean(ct_initial(indent_size)),
        ct_level(ct_initial(indent_size)) == 0,
        ct_indent_size(ct_initial(indent_size)) == indent_size,
        indent_amount(ct_initial(indent_size)) == 0,
{
}

/// Entering a nesting scope twice, from a state already inside at least
/// one scope, widens the indentation before a content line by exactly
/// twice the indent size; leaving both scopes restores the state
/// unchanged. (From level zero the first entering does not widen the
/// indent: levels zero and one both render un-indented.)
pub proof fn lemma_nest_indent(st: CommonText)
    requires
        1 <= ct_level(st),
        ct_level(st) + 2 <= u32::MAX,
    ensures
        indent_amount(ct_enter(ct_enter(st))) == indent_amount(st) + 2 * ct_indent_size(st),
        ct_exit(ct_exit(ct_enter(ct_enter(st)))) == st,
{
    let s = st.indent_size as int;
    let l = st.level as int;
    assert(s * (l + 2 - 1) == s * (l - 1) + 2 * s) by (nonlinear_arith);
}

/// At a clean line start, a content character is written behind exactly
/// the state's indentation.
pub proof fn lemma_indent_written(st: CommonText, c: char)
    requires
        ct_line_start_clean(st),
        c != '\n',
    ensures
        ct_write_out(st, seq![c]) == spaces(indent_amount(st)) + seq![c],
{
    assert(seq![c].skip(1) =~= Seq::<char>::empty());
    assert(ct_write_out(ct_step_state(st, c), seq![c].skip(1)) =~= Seq::<char>::empty());
    assert(ct_step_out(st, c) =~= spaces(indent_amount(st)) + seq![c]);
    assert(ct_write_out(st, seq![c]) =~= spaces(indent_amount(st)) + seq![c]);
}

} // verus!
