//! Finds kitty graphics commands (`ESC _ G ... ESC \`) in a stream of terminal bytes.

use crate::control::{control_of, lemma_quiet_is_bounded, parse_control_data};
use crate::types::{CommandView, KittyCommand};
use vstd::prelude::*;

verus! {

/// APC parser state machine
#[derive(Debug, Clone, Copy, PartialEq, Eq, Structural)]
pub enum ApcParseState {
    Ground,
    EscapeSeen,
    ApcEntry,
    ApcParam,
    ApcPassthrough,
    StringTerminator,
}

impl Default for ApcParseState {
    fn default() -> (state: Self)
        ensures
            state == ApcParseState::Ground,
    {
        ApcParseState::Ground
    }
}

/// Result from advancing the APC parser
#[derive(Debug)]
pub enum ApcAdvanceResult {
    /// Continue buffering bytes
    Continue,
    /// Complete kitty graphics command parsed
    Complete(KittyCommand),
    /// Not an APC or not a kitty graphics sequence, forward these bytes to VTE
    NotApc(Vec<u8>),
    /// Parse error, reset state
    Error,
}

/// What an [`ApcAdvanceResult`] says.
#[verifier::ext_equal]
pub enum AdvanceView {
    Continue,
    Complete(CommandView),
    NotApc(Seq<u8>),
    Error,
}

impl View for ApcAdvanceResult {
    type V = AdvanceView;

    open spec fn view(&self) -> AdvanceView {
        match *self {
            ApcAdvanceResult::Continue => AdvanceView::Continue,
            ApcAdvanceResult::Complete(command) => AdvanceView::Complete(command@),
            ApcAdvanceResult::NotApc(bytes) => AdvanceView::NotApc(bytes@),
            ApcAdvanceResult::Error => AdvanceView::Error,
        }
    }
}

/// APC parser for detecting and parsing kitty graphics sequences
#[derive(Debug, Clone)]
pub struct KittyApcParser {
    state: ApcParseState,
    control_buffer: Vec<u8>,
    payload_buffer: Vec<u8>,
    escape_buffer: Vec<u8>,
}

/// What a [`KittyApcParser`] has seen of a sequence.
#[verifier::ext_equal]
pub struct ParserView {
    pub state: ApcParseState,
    /// The control data so far.
    pub control: Seq<u8>,
    /// The payload so far.
    pub payload: Seq<u8>,
    /// Bytes held back until it is known whether they begin a sequence.
    pub escape: Seq<u8>,
}

impl View for KittyApcParser {
    type V = ParserView;

    closed spec fn view(&self) -> ParserView {
        ParserView {
            state: self.state,
            control: self.control_buffer@,
            payload: self.payload_buffer@,
            escape: self.escape_buffer@,
        }
    }
}

/// The escape character.
pub const ESC: u8 = 0x1B;

/// The bell character, which ends a sequence too.
pub const BEL: u8 = 0x07;

/// A parser between two sequences.
pub open spec fn idle_parser() -> ParserView {
    ParserView {
        state: ApcParseState::Ground,
        control: Seq::empty(),
        payload: Seq::empty(),
        escape: Seq::empty(),
    }
}

/// A command with the control data and the payload that were collected, or an error if the
/// control data is not text.
pub open spec fn finished(control: Seq<u8>, payload: Seq<u8>) -> AdvanceView {
    match control_of(control) {
        Some(control) => AdvanceView::Complete(CommandView { control, payload }),
        None => AdvanceView::Error,
    }
}

/// The parser after the end of a sequence.
pub open spec fn after_command(parser: ParserView) -> ParserView {
    ParserView {
        state: ApcParseState::Ground,
        control: Seq::empty(),
        payload: Seq::empty(),
        ..parser
    }
}

/// The parser after one more byte, and what the byte led to.
pub open spec fn step(parser: ParserView, byte: u8) -> (ParserView, AdvanceView) {
    let end = (after_command(parser), finished(parser.control, parser.payload));
    match parser.state {
        ApcParseState::Ground => if byte == ESC {
            (
                ParserView {
                    state: ApcParseState::EscapeSeen,
                    escape: parser.escape.push(byte),
                    ..parser
                },
                AdvanceView::Continue,
            )
        } else {
            (parser, AdvanceView::NotApc(seq![byte]))
        },
        ApcParseState::EscapeSeen => if byte == 0x5F {
            (
                ParserView { state: ApcParseState::ApcEntry, escape: Seq::empty(), ..parser },
                AdvanceView::Continue,
            )
        } else {
            (
                ParserView { state: ApcParseState::Ground, escape: Seq::empty(), ..parser },
                AdvanceView::NotApc(parser.escape.push(byte)),
            )
        },
        ApcParseState::ApcEntry => if byte == 0x47 {
            (ParserView { state: ApcParseState::ApcParam, ..parser }, AdvanceView::Continue)
        } else {
            (
                ParserView { state: ApcParseState::Ground, ..parser },
                AdvanceView::NotApc(seq![ESC, 0x5F, byte]),
            )
        },
        ApcParseState::ApcParam => if byte == 0x3B {
            (ParserView { state: ApcParseState::ApcPassthrough, ..parser }, AdvanceView::Continue)
        } else if byte == ESC {
            (
                ParserView { state: ApcParseState::StringTerminator, ..parser },
                AdvanceView::Continue,
            )
        } else if byte == BEL {
            end
        } else {
            (ParserView { control: parser.control.push(byte), ..parser }, AdvanceView::Continue)
        },
        ApcParseState::ApcPassthrough => if byte == ESC {
            (
                ParserView { state: ApcParseState::StringTerminator, ..parser },
                AdvanceView::Continue,
            )
        } else if byte == BEL {
            end
        } else {
            (ParserView { payload: parser.payload.push(byte), ..parser }, AdvanceView::Continue)
        },
        ApcParseState::StringTerminator => if byte == 0x5C {
            end
        } else {
            (
                ParserView {
                    state: ApcParseState::ApcPassthrough,
                    payload: parser.payload.push(ESC).push(byte),
                    ..parser
                },
                AdvanceView::Continue,
            )
        },
    }
}

/// What holds of a parser at all times: each buffer is empty outside the states that use it.
pub open spec fn consistent(parser: ParserView) -> bool {
    &&& parser.escape == (if parser.state == ApcParseState::EscapeSeen {
        seq![ESC]
    } else {
        Seq::<u8>::empty()
    })
    &&& match parser.state {
        ApcParseState::Ground | ApcParseState::EscapeSeen | ApcParseState::ApcEntry => {
            parser.control == Seq::<u8>::empty() && parser.payload == Seq::<u8>::empty()
        },
        ApcParseState::ApcParam => parser.payload == Seq::<u8>::empty(),
        ApcParseState::ApcPassthrough | ApcParseState::StringTerminator => true,
    }
}

impl Default for KittyApcParser {
    fn default() -> (parser: Self)
        ensures
            parser@ == idle_parser(),
            consistent(parser@),
    {
        KittyApcParser {
            state: ApcParseState::Ground,
            control_buffer: Vec::new(),
            payload_buffer: Vec::new(),
            escape_buffer: Vec::new(),
        }
    }
}

/// Empties a buffer and returns what it held.
fn take_bytes(buffer: &mut Vec<u8>) -> (bytes: Vec<u8>)
    ensures
        bytes@ == old(buffer)@,
        final(buffer)@ == Seq::<u8>::empty(),
{
    let mut bytes: Vec<u8> = Vec::new();
    std::mem::swap(buffer, &mut bytes);
    bytes
}

impl KittyApcParser {
    /// Check if currently parsing an APC sequence
    pub fn is_parsing(&self) -> (parsing: bool)
        ensures
            parsing == (self@.state != ApcParseState::Ground),
    {
        self.state != ApcParseState::Ground
    }

    /// Process a single byte
    pub fn advance(&mut self, byte: u8) -> (result: ApcAdvanceResult)
        ensures
            final(self)@ == step(old(self)@, byte).0,
            result@ == step(old(self)@, byte).1,
            consistent(old(self)@) ==> consistent(final(self)@),
    {
        let result = match self.state {
            ApcParseState::Ground => {
                if byte == ESC {
                    self.state = ApcParseState::EscapeSeen;
                    self.escape_buffer.push(byte);
                    ApcAdvanceResult::Continue
                } else {
                    ApcAdvanceResult::NotApc(vec![byte])
                }
            },
            ApcParseState::EscapeSeen => {
                if byte == 0x5F {
                    // APC introducer (ESC _)
                    self.state = ApcParseState::ApcEntry;
                    self.escape_buffer.clear();
                    ApcAdvanceResult::Continue
                } else {
                    // Not APC, return buffered ESC + this byte
                    let mut buffered = take_bytes(&mut self.escape_buffer);
                    buffered.push(byte);
                    self.state = ApcParseState::Ground;
                    ApcAdvanceResult::NotApc(buffered)
                }
            },
            ApcParseState::ApcEntry => {
                if byte == 0x47 {
                    // Kitty graphics command
                    self.state = ApcParseState::ApcParam;
                    ApcAdvanceResult::Continue
                } else {
                    // Unknown APC type: reset and pass through
                    self.state = ApcParseState::Ground;
                    ApcAdvanceResult::NotApc(vec![ESC, 0x5F, byte])
                }
            },
            ApcParseState::ApcParam => {
                if byte == 0x3B {
                    // End of control data, start of payload
                    self.state = ApcParseState::ApcPassthrough;
                    ApcAdvanceResult::Continue
                } else if byte == ESC {
                    // Potential string terminator
                    self.state = ApcParseState::StringTerminator;
                    ApcAdvanceResult::Continue
                } else if byte == BEL {
                    // BEL also terminates (no payload case)
                    self.finalize_command()
                } else {
                    self.control_buffer.push(byte);
                    ApcAdvanceResult::Continue
                }
            },
            ApcParseState::ApcPassthrough => {
                if byte == ESC {
                    self.state = ApcParseState::StringTerminator;
                    ApcAdvanceResult::Continue
                } else if byte == BEL {
                    self.finalize_command()
                } else {
                    self.payload_buffer.push(byte);
                    ApcAdvanceResult::Continue
                }
            },
            ApcParseState::StringTerminator => {
                if byte == 0x5C {
                    // Complete ST (ESC \)
                    self.finalize_command()
                } else {
                    // False alarm, ESC was part of payload
                    self.payload_buffer.push(ESC);
                    self.payload_buffer.push(byte);
                    self.state = ApcParseState::ApcPassthrough;
                    ApcAdvanceResult::Continue
                }
            },
        };
        assert(self@ =~= step(old(self)@, byte).0);
        assert(result@ =~= step(old(self)@, byte).1);
        result
    }

    fn finalize_command(&mut self) -> (result: ApcAdvanceResult)
        ensures
            final(self)@ == after_command(old(self)@),
            result@ == finished(old(self)@.control, old(self)@.payload),
    {
        let control_bytes = take_bytes(&mut self.control_buffer);
        let payload = take_bytes(&mut self.payload_buffer);
        self.state = ApcParseState::Ground;
        match parse_control_data(control_bytes.as_slice()) {
            Ok(control) => ApcAdvanceResult::Complete(KittyCommand { control, payload }),
            Err(_) => ApcAdvanceResult::Error,
        }
    }

    /// Reset parser state
    pub fn reset(&mut self)
        ensures
            final(self)@ == idle_parser(),
            consistent(final(self)@),
    {
        self.state = ApcParseState::Ground;
        self.control_buffer.clear();
        self.payload_buffer.clear();
        self.escape_buffer.clear();
    }
}

/// The parser after a string of bytes, and what each byte led to.
pub open spec fn run(parser: ParserView, bytes: Seq<u8>) -> (ParserView, Seq<AdvanceView>)
    decreases bytes.len(),
{
    if bytes.len() == 0 {
        (parser, Seq::empty())
    } else {
        let before = run(parser, bytes.drop_last());
        let last = step(before.0, bytes.last());
        (last.0, before.1.push(last.1))
    }
}

/// The bytes that the results hand on to the terminal, in order.
pub open spec fn forwarded(results: Seq<AdvanceView>) -> Seq<u8>
    decreases results.len(),
{
    if results.len() == 0 {
        Seq::empty()
    } else {
        forwarded(results.drop_last()) + match results.last() {
            AdvanceView::NotApc(bytes) => bytes,
            _ => Seq::empty(),
        }
    }
}

/// The bytes that the parser has read but can still hand on, should no command begin.
pub open spec fn held_back(parser: ParserView) -> Seq<u8> {
    match parser.state {
        ApcParseState::EscapeSeen => seq![ESC],
        ApcParseState::ApcEntry => seq![ESC, 0x5F],
        _ => Seq::empty(),
    }
}

/// `n` results that ask for more bytes.
pub open spec fn continues(n: nat) -> Seq<AdvanceView> {
    Seq::new(n, |i: int| AdvanceView::Continue)
}

/// Each sequence stands for itself: whenever a byte leads to a command, to an error or to
/// bytes to forward, the parser is as new, and whenever it leads to neither, the parser is
/// within a sequence.
pub proof fn lemma_results_leave_parser_idle(parser: ParserView, byte: u8)
    requires
        consistent(parser),
    ensures
        step(parser, byte).1 is Continue <==> step(parser, byte).0.state != ApcParseState::Ground,
        !(step(parser, byte).1 is Continue) ==> step(parser, byte).0 == idle_parser(),
        consistent(step(parser, byte).0),
{
    let next = step(parser, byte);
    if !(next.1 is Continue) {
        assert(next.0 =~= idle_parser());
    }
}

/// Every command that the parser gives has the quiet mode 0, 1 or 2.
pub proof fn lemma_parsed_quiet_is_bounded(parser: ParserView, byte: u8)
    ensures
        step(parser, byte).1 matches AdvanceView::Complete(command) ==> command.control.quiet
            <= 2,
{
    lemma_quiet_is_bounded(parser.control);
}

/// Running over two strings is running over one after the other.
pub proof fn lemma_run_concat(parser: ParserView, first: Seq<u8>, second: Seq<u8>)
    ensures
        run(parser, first + second).0 == run(run(parser, first).0, second).0,
        run(parser, first + second).1 == run(parser, first).1 + run(
            run(parser, first).0,
            second,
        ).1,
    decreases second.len(),
{
    let whole = first + second;
    if second.len() == 0 {
        assert(whole == first);
    } else {
        lemma_run_concat(parser, first, second.drop_last());
        assert(whole.drop_last() == first + second.drop_last());
        assert(run(parser, whole).1 =~= run(parser, first).1 + run(
            run(parser, first).0,
            second,
        ).1);
    }
}

/// Terminal output that holds no kitty graphics introducer (`ESC _ G`) is handed on byte for
/// byte, but for an escape, or an escape and an underscore, at its end, which the parser
/// holds back.
pub proof fn lemma_other_output_passes_through(bytes: Seq<u8>)
    requires
        forall|i: int|
            0 <= i < bytes.len() - 2 ==> !(#[trigger] bytes[i] == ESC && bytes[i + 1] == 0x5F
                && bytes[i + 2] == 0x47),
    ensures
        forwarded(run(idle_parser(), bytes).1) + held_back(run(idle_parser(), bytes).0) == bytes,
        run(idle_parser(), bytes).0.state == ApcParseState::Ground || run(
            idle_parser(),
            bytes,
        ).0.state == ApcParseState::EscapeSeen || run(idle_parser(), bytes).0.state
            == ApcParseState::ApcEntry,
        consistent(run(idle_parser(), bytes).0),
    decreases bytes.len(),
{
    if bytes.len() > 0 {
        let front = bytes.drop_last();
        assert forall|i: int| 0 <= i < front.len() - 2 implies !(#[trigger] front[i] == ESC
            && front[i + 1] == 0x5F && front[i + 2] == 0x47) by {
            assert(front[i] == bytes[i]);
        }
        lemma_other_output_passes_through(front);
        let before = run(idle_parser(), front);
        let after = run(idle_parser(), bytes);
        let results = after.1;
        assert(results.drop_last() == before.1);
        let held = held_back(before.0);
        if before.0.state == ApcParseState::ApcEntry {
            let k = front.len() - 2;
            assert(front[k] == held[0] && front[k + 1] == held[1]) by {
                assert((forwarded(before.1) + held)[k] == front[k]);
                assert((forwarded(before.1) + held)[k + 1] == front[k + 1]);
            }
            assert(bytes[k] == ESC && bytes[k + 1] == 0x5F);
        }
        assert(bytes == front.push(bytes.last()));
        assert(forwarded(results) + held_back(after.0) =~= forwarded(before.1) + held.push(
            bytes.last(),
        ));
    }
}

/// Within the control data, bytes other than `;`, ESC and BEL are collected.
proof fn lemma_run_control(parser: ParserView, control: Seq<u8>)
    requires
        parser.state == ApcParseState::ApcParam,
        forall|i: int|
            0 <= i < control.len() ==> #[trigger] control[i] != ESC && control[i] != BEL
                && control[i] != 0x3B,
    ensures
        run(parser, control) == (
            ParserView { control: parser.control + control, ..parser },
            continues(control.len()),
        ),
    decreases control.len(),
{
    let (end, results) = run(parser, control);
    if control.len() > 0 {
        let front = control.drop_last();
        assert forall|i: int| 0 <= i < front.len() implies #[trigger] front[i] != ESC && front[i]
            != BEL && front[i] != 0x3B by {
            assert(front[i] == control[i]);
        }
        lemma_run_control(parser, front);
        assert(control.last() == control[control.len() - 1]);
        assert(parser.control + control =~= (parser.control + front).push(control.last()));
    } else {
        assert(parser.control + control =~= parser.control);
    }
    assert(end =~= ParserView { control: parser.control + control, ..parser });
    assert(results =~= continues(control.len()));
}

/// Within the payload, bytes other than ESC and BEL are collected.
proof fn lemma_run_payload(parser: ParserView, payload: Seq<u8>)
    requires
        parser.state == ApcParseState::ApcPassthrough,
        forall|i: int|
            0 <= i < payload.len() ==> #[trigger] payload[i] != ESC && payload[i] != BEL,
    ensures
        run(parser, payload) == (
            ParserView { payload: parser.payload + payload, ..parser },
            continues(payload.len()),
        ),
    decreases payload.len(),
{
    let (end, results) = run(parser, payload);
    if payload.len() > 0 {
        let front = payload.drop_last();
        assert forall|i: int| 0 <= i < front.len() implies #[trigger] front[i] != ESC && front[i]
            != BEL by {
            assert(front[i] == payload[i]);
        }
        lemma_run_payload(parser, front);
        assert(payload.last() == payload[payload.len() - 1]);
        assert(parser.payload + payload =~= (parser.payload + front).push(payload.last()));
    } else {
        assert(parser.payload + payload =~= parser.payload);
    }
    assert(end =~= ParserView { payload: parser.payload + payload, ..parser });
    assert(results =~= continues(payload.len()));
}

/// The two ways to end a sequence: `ESC \` and BEL.
pub open spec fn is_terminator(end: Seq<u8>) -> bool {
    end == seq![ESC, 0x5C] || end == seq![BEL]
}

/// What a terminator leads to.
proof fn lemma_run_terminator(parser: ParserView, end: Seq<u8>)
    requires
        parser.state == ApcParseState::ApcParam || parser.state == ApcParseState::ApcPassthrough,
        is_terminator(end),
    ensures
        run(parser, end) == (
            after_command(parser),
            continues((end.len() - 1) as nat).push(finished(parser.control, parser.payload)),
        ),
{
    reveal_with_fuel(run, 3);
    let (last, results) = run(parser, end);
    if end == seq![BEL] {
        assert(end.drop_last() == Seq::<u8>::empty());
    } else {
        assert(end.drop_last() == seq![ESC]);
        assert(end.drop_last().drop_last() == Seq::<u8>::empty());
    }
    assert(last =~= after_command(parser));
    assert(results =~= continues((end.len() - 1) as nat).push(
        finished(parser.control, parser.payload),
    ));
}

/// What the introducer of a command leads to.
proof fn lemma_run_introducer()
    ensures
        run(idle_parser(), seq![ESC, 0x5F, 0x47]) == (
            ParserView { state: ApcParseState::ApcParam, ..idle_parser() },
            continues(3),
        ),
{
    reveal_with_fuel(run, 4);
    let bytes = seq![ESC, 0x5Fu8, 0x47u8];
    assert(bytes.drop_last() == seq![ESC, 0x5Fu8]);
    assert(bytes.drop_last().drop_last() == seq![ESC]);
    assert(bytes.drop_last().drop_last().drop_last() == Seq::<u8>::empty());
    let (last, results) = run(idle_parser(), bytes);
    assert(last =~= ParserView { state: ApcParseState::ApcParam, ..idle_parser() });
    assert(results =~= continues(3));
}

/// A command with a payload, as it stands in the stream.
pub open spec fn framed(control: Seq<u8>, payload: Seq<u8>, end: Seq<u8>) -> Seq<u8> {
    seq![ESC, 0x5Fu8, 0x47u8] + control + seq![0x3Bu8] + payload + end
}

/// A command without a payload, as it stands in the stream.
pub open spec fn framed_bare(control: Seq<u8>, end: Seq<u8>) -> Seq<u8> {
    seq![ESC, 0x5Fu8, 0x47u8] + control + end
}

/// What the control data of a command leads to, behind its introducer.
proof fn lemma_run_head(control: Seq<u8>)
    requires
        forall|i: int|
            0 <= i < control.len() ==> #[trigger] control[i] != ESC && control[i] != BEL
                && control[i] != 0x3B,
    ensures
        run(idle_parser(), seq![ESC, 0x5Fu8, 0x47u8] + control) == (
            ParserView { state: ApcParseState::ApcParam, control, ..idle_parser() },
            continues(3 + control.len()),
        ),
{
    let intro = seq![ESC, 0x5Fu8, 0x47u8];
    let in_control = ParserView { state: ApcParseState::ApcParam, ..idle_parser() };
    lemma_run_introducer();
    lemma_run_control(in_control, control);
    assert(in_control.control + control =~= control);
    lemma_run_concat(idle_parser(), intro, control);
    assert(run(idle_parser(), intro + control).1 =~= continues(3 + control.len()));
}

/// What the separator and the payload of a command lead to, behind its control data.
proof fn lemma_run_body(control: Seq<u8>, payload: Seq<u8>)
    requires
        forall|i: int|
            0 <= i < payload.len() ==> #[trigger] payload[i] != ESC && payload[i] != BEL,
    ensures
        run(
            ParserView { state: ApcParseState::ApcParam, control, ..idle_parser() },
            seq![0x3Bu8] + payload,
        ) == (
            ParserView { state: ApcParseState::ApcPassthrough, control, payload, ..idle_parser() },
            continues(1 + payload.len()),
        ),
{
    let at_separator = ParserView { state: ApcParseState::ApcParam, control, ..idle_parser() };
    let in_payload = ParserView { state: ApcParseState::ApcPassthrough, ..at_separator };
    assert(run(at_separator, seq![0x3Bu8]) == (in_payload, continues(1))) by {
        reveal_with_fuel(run, 2);
        assert(seq![0x3Bu8].drop_last() == Seq::<u8>::empty());
        assert(run(at_separator, seq![0x3Bu8]).1 =~= continues(1));
    }
    lemma_run_payload(in_payload, payload);
    assert(in_payload.payload + payload =~= payload);
    lemma_run_concat(at_separator, seq![0x3Bu8], payload);
    assert(run(at_separator, seq![0x3Bu8] + payload).1 =~= continues(1 + payload.len()));
}

/// What a terminator leads to, behind bytes that only asked for more.
proof fn lemma_run_end(head: Seq<u8>, parser: ParserView, end: Seq<u8>)
    requires
        run(idle_parser(), head) == (parser, continues(head.len())),
        parser.state == ApcParseState::ApcParam || parser.state == ApcParseState::ApcPassthrough,
        is_terminator(end),
    ensures
        run(idle_parser(), head + end) == (
            after_command(parser),
            continues((head.len() + end.len() - 1) as nat).push(
                finished(parser.control, parser.payload),
            ),
        ),
{
    lemma_run_terminator(parser, end);
    lemma_run_concat(idle_parser(), head, end);
    assert(run(idle_parser(), head + end).1 =~= continues(
        (head.len() + end.len() - 1) as nat,
    ).push(finished(parser.control, parser.payload)));
}

/// A framed command is recognised: every byte but the last asks for more, the last gives the
/// command with exactly its control data and payload, or an error if the control data is not
/// UTF-8, and the parser is as new.
pub proof fn lemma_framed_command_is_read(control: Seq<u8>, payload: Seq<u8>, end: Seq<u8>)
    requires
        forall|i: int|
            0 <= i < control.len() ==> #[trigger] control[i] != ESC && control[i] != BEL
                && control[i] != 0x3B,
        forall|i: int|
            0 <= i < payload.len() ==> #[trigger] payload[i] != ESC && payload[i] != BEL,
        is_terminator(end),
    ensures
        run(idle_parser(), framed(control, payload, end)) == (
            idle_parser(),
            continues((framed(control, payload, end).len() - 1) as nat).push(
                finished(control, payload),
            ),
        ),
{
    let head = seq![ESC, 0x5Fu8, 0x47u8] + control;
    let body = seq![0x3Bu8] + payload;
    let at_end = ParserView {
        state: ApcParseState::ApcPassthrough,
        control,
        payload,
        ..idle_parser()
    };
    lemma_run_head(control);
    lemma_run_body(control, payload);
    assert(run(idle_parser(), head + body) == (at_end, continues((head + body).len()))) by {
        lemma_run_concat(idle_parser(), head, body);
        assert(run(idle_parser(), head + body).1 =~= continues((head + body).len()));
    }
    lemma_run_end(head + body, at_end, end);
    assert(after_command(at_end) =~= idle_parser());
    assert(framed(control, payload, end) =~= head + body + end);
}

/// A framed command without a payload is recognised too, with an empty payload.
pub proof fn lemma_bare_command_is_read(control: Seq<u8>, end: Seq<u8>)
    requires
        forall|i: int|
            0 <= i < control.len() ==> #[trigger] control[i] != ESC && control[i] != BEL
                && control[i] != 0x3B,
        is_terminator(end),
    ensures
        run(idle_parser(), framed_bare(control, end)) == (
            idle_parser(),
            continues((framed_bare(control, end).len() - 1) as nat).push(
                finished(control, Seq::empty()),
            ),
        ),
{
    let at_end = ParserView { state: ApcParseState::ApcParam, control, ..idle_parser() };
    lemma_run_head(control);
    lemma_run_end(seq![ESC, 0x5Fu8, 0x47u8] + control, at_end, end);
    assert(after_command(at_end) =~= idle_parser());
}

/// An escape within the payload that does not begin the terminator is part of the payload,
/// and so is the byte after it.
pub proof fn lemma_lone_escape_is_payload(parser: ParserView, byte: u8)
    requires
        parser.state == ApcParseState::ApcPassthrough,
        byte != 0x5C,
    ensures
        run(parser, seq![ESC, byte]) == (
            ParserView { payload: parser.payload + seq![ESC, byte], ..parser },
            continues(2),
        ),
{
    reveal_with_fuel(run, 3);
    let bytes = seq![ESC, byte];
    assert(bytes.drop_last() == seq![ESC]);
    assert(bytes.drop_last().drop_last() == Seq::<u8>::empty());
    let (last, results) = run(parser, bytes);
    assert(last =~= ParserView { payload: parser.payload + seq![ESC, byte], ..parser });
    assert(results =~= continues(2));
}

} // verus!
