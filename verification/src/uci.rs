//! The dialogue with a chess engine that shows that it works.

use vstd::prelude::*;
use vstd::slice::slice_subrange;
use vstd::utf8::{decode_utf8, valid_utf8};
use crate::error::{Error, ErrorView};
use crate::place::texts_view;
use crate::text::{
    begins_with, chars_of, is_white, join2, join3, starts_with, text_of, trim, trim_start, trimmed,
    trimming_takes_white_space_away, white_space,
};
use crate::web::optional;

verus! {

/// The most bytes of a line that an engine may print.
pub const MAX_OUTPUT_LINE_BYTES: u64 = 16_384;

/// The most bytes that an engine may print.
pub const MAX_TOTAL_OUTPUT_BYTES: u64 = 4_194_304;

/// How long each answer of an engine may take, in nanoseconds.
#[derive(Clone, Copy, Debug, PartialEq, Eq, Structural)]
pub struct ValidationTimeouts {
    pub uci: u128,
    pub ready: u128,
    pub search: u128,
    pub quit: u128,
}

impl Default for ValidationTimeouts {
    /// Ten seconds to start, ten minutes to get ready, fifteen seconds for a move and two to end.
    fn default() -> (timeouts: ValidationTimeouts)
        ensures
            timeouts == (ValidationTimeouts {
                uci: 10_000_000_000,
                ready: 600_000_000_000,
                search: 15_000_000_000,
                quit: 2_000_000_000,
            }),
    {
        ValidationTimeouts {
            uci: 10_000_000_000,
            ready: 600_000_000_000,
            search: 15_000_000_000,
            quit: 2_000_000_000,
        }
    }
}

/// What an engine said of itself, and the move that it found.
#[derive(Clone, Debug, PartialEq, Eq)]
pub struct UciIdentity {
    pub name: Option<String>,
    pub author: Option<String>,
    pub bestmove: String,
}

/// A [`UciIdentity`] with its texts as sequences.
#[verifier::ext_equal]
pub struct IdentityView {
    pub name: Option<Seq<char>>,
    pub author: Option<Seq<char>>,
    pub bestmove: Seq<char>,
}

impl View for UciIdentity {
    type V = IdentityView;

    open spec fn view(&self) -> IdentityView {
        IdentityView {
            name: optional(self.name),
            author: optional(self.author),
            bestmove: self.bestmove@,
        }
    }
}

/// A move that is legal from the starting position: a pawn goes one or two squares ahead, or a
/// knight jumps out.
pub open spec fn is_starting_move(text: Seq<char>) -> bool {
    &&& text.len() == 4
    &&& {
        ||| 'a' <= text[0] && text[0] <= 'h' && text[1] == '2' && text[2] == text[0] && (text[3]
            == '3' || text[3] == '4')
        ||| text[0] == 'b' && text[1] == '1' && (text[2] == 'a' || text[2] == 'c') && text[3]
            == '3'
        ||| text[0] == 'g' && text[1] == '1' && (text[2] == 'f' || text[2] == 'h') && text[3]
            == '3'
    }
}

/// Whether a move is legal from the starting position.
pub fn valid_starting_move(value: &str) -> (answer: bool)
    ensures
        answer == is_starting_move(value@),
{
    let chars = chars_of(value);
    if chars.len() != 4 {
        return false;
    }
    let pawn = 'a' <= chars[0] && chars[0] <= 'h' && chars[1] == '2' && chars[2] == chars[0] && (
    chars[3] == '3' || chars[3] == '4');
    let queenside = chars[0] == 'b' && chars[1] == '1' && (chars[2] == 'a' || chars[2] == 'c')
        && chars[3] == '3';
    let kingside = chars[0] == 'g' && chars[1] == '1' && (chars[2] == 'f' || chars[2] == 'h')
        && chars[3] == '3';
    pawn || queenside || kingside
}

/// How many characters stand before the first white space.
pub open spec fn word_length(text: Seq<char>) -> int
    decreases text.len(),
{
    if text.len() == 0 || is_white(text[0]) {
        0
    } else {
        1 + word_length(text.skip(1))
    }
}

/// The first word of a text; nothing, where it holds none.
pub open spec fn first_word(text: Seq<char>) -> Seq<char> {
    let rest = trim_start(text);
    rest.take(word_length(rest))
}

proof fn lemma_word_length(text: Seq<char>, count: int)
    requires
        0 <= count <= text.len(),
        forall|k: int| 0 <= k < count ==> !is_white(#[trigger] text[k]),
        count < text.len() ==> is_white(text[count]),
    ensures
        word_length(text) == count,
    decreases count,
{
    if count > 0 {
        assert(!is_white(text[0]));
        assert forall|k: int| 0 <= k < count - 1 implies !is_white(#[trigger] text.skip(1)[k]) by {
            assert(text.skip(1)[k] == text[k + 1]);
        }
        lemma_word_length(text.skip(1), count - 1);
    }
}

/// The first word of a text.
pub fn take_word(chars: &[char]) -> (word: Vec<char>)
    ensures
        word@ == first_word(chars@),
{
    let mut start: usize = 0;
    assert(chars@.skip(0) =~= chars@);
    while start < chars.len() && white_space(chars[start])
        invariant
            start <= chars@.len(),
            trim_start(chars@.skip(start as int)) == trim_start(chars@),
        decreases chars@.len() - start,
    {
        assert(chars@.skip(start as int).skip(1) =~= chars@.skip(start + 1));
        start = start + 1;
    }
    let ghost rest = chars@.skip(start as int);
    assert(trim_start(chars@) == rest);
    let mut end: usize = start;
    while end < chars.len() && !white_space(chars[end])
        invariant
            start <= end <= chars@.len(),
            rest == chars@.skip(start as int),
            forall|k: int| 0 <= k < end - start ==> !is_white(#[trigger] rest[k]),
        decreases chars@.len() - end,
    {
        assert(rest[end - start] == chars@[end as int]);
        end = end + 1;
    }
    proof {
        if end < chars@.len() {
            assert(rest[end - start] == chars@[end as int]);
        }
        lemma_word_length(rest, end - start);
        assert(chars@.subrange(start as int, end as int) =~= rest.take(end - start));
    }
    crate::text::slice_to_vec(slice_subrange(chars, start, end))
}

/// What is waited for in the dialogue with an engine.
#[derive(Clone, Copy, Debug, PartialEq, Eq, Structural)]
pub enum Stage {
    /// `uciok`, with what the engine says of itself before it.
    Identity,
    /// `readyok`.
    Readiness,
    /// `bestmove`.
    Move,
    /// The end of the engine.
    Exit,
}

/// What happens while an answer of an engine is waited for.
#[derive(Clone, Debug, PartialEq, Eq)]
pub enum EngineEvent {
    /// The user wants no more of it.
    Cancelled,
    /// The time for the answer is over.
    TimedOut,
    /// The engine has ended.
    Exited,
    /// The engine printed what is refused, for this reason.
    Rejected(String),
    /// The engine printed a line.
    Line(String),
}

/// An [`EngineEvent`] with its text as a sequence of characters.
pub enum EventView {
    Cancelled,
    TimedOut,
    Exited,
    Rejected(Seq<char>),
    Line(Seq<char>),
}

impl View for EngineEvent {
    type V = EventView;

    open spec fn view(&self) -> EventView {
        match *self {
            EngineEvent::Cancelled => EventView::Cancelled,
            EngineEvent::TimedOut => EventView::TimedOut,
            EngineEvent::Exited => EventView::Exited,
            EngineEvent::Rejected(reason) => EventView::Rejected(reason@),
            EngineEvent::Line(line) => EventView::Line(line@),
        }
    }
}

/// What is done upon an event.
#[derive(Debug, PartialEq, Eq)]
pub enum Reply {
    /// Wait on, no longer than before.
    Wait,
    /// Send commands, then wait for the next answer.
    Send(Vec<String>),
    /// The engine works.
    Done(UciIdentity),
    /// The engine does not work, or was given up.
    Fail(Error),
}

/// A [`Reply`] with its texts as sequences.
pub enum ReplyView {
    Wait,
    Send(Seq<Seq<char>>),
    Done(IdentityView),
    Fail(ErrorView),
}

impl View for Reply {
    type V = ReplyView;

    open spec fn view(&self) -> ReplyView {
        match *self {
            Reply::Wait => ReplyView::Wait,
            Reply::Send(commands) => ReplyView::Send(texts_view(commands@)),
            Reply::Done(identity) => ReplyView::Done(identity@),
            Reply::Fail(error) => ReplyView::Fail(error@),
        }
    }
}

/// The dialogue with an engine: what is waited for, and what the engine has said.
pub struct Dialogue {
    stage: Stage,
    name: Option<String>,
    author: Option<String>,
    bestmove: String,
}

/// A [`Dialogue`] with its texts as sequences.
#[verifier::ext_equal]
pub struct DialogueView {
    pub stage: Stage,
    pub name: Option<Seq<char>>,
    pub author: Option<Seq<char>>,
    pub bestmove: Seq<char>,
}

impl View for Dialogue {
    type V = DialogueView;

    closed spec fn view(&self) -> DialogueView {
        DialogueView {
            stage: self.stage,
            name: optional(self.name),
            author: optional(self.author),
            bestmove: self.bestmove@,
        }
    }
}

/// The answer that is waited for.
pub open spec fn expected_answer(stage: Stage) -> Seq<char> {
    match stage {
        Stage::Identity => "uciok"@,
        Stage::Readiness => "readyok"@,
        Stage::Move => "bestmove"@,
        Stage::Exit => "exit"@,
    }
}

/// The error of an engine that does not answer.
pub open spec fn engine_error(message: Seq<char>) -> ReplyView {
    ReplyView::Fail(ErrorView::UciValidation(message))
}

/// A text without a prefix that it begins with.
pub open spec fn after(text: Seq<char>, prefix: Seq<char>) -> Seq<char> {
    text.skip(prefix.len() as int)
}

impl DialogueView {
    /// A dialogue in which `uci` was sent.
    pub open spec fn fresh() -> DialogueView {
        DialogueView { stage: Stage::Identity, name: None, author: None, bestmove: Seq::empty() }
    }

    /// What the dialogue comes to by a line, and what is done.
    pub open spec fn read(self, line: Seq<char>) -> (DialogueView, ReplyView) {
        match self.stage {
            Stage::Identity => if begins_with(line, "id name "@) {
                (
                    DialogueView { name: Some(trimmed(after(line, "id name "@))), ..self },
                    ReplyView::Wait,
                )
            } else if begins_with(line, "id author "@) {
                (
                    DialogueView { author: Some(trimmed(after(line, "id author "@))), ..self },
                    ReplyView::Wait,
                )
            } else if trimmed(line) == "uciok"@ {
                (
                    DialogueView { stage: Stage::Readiness, ..self },
                    ReplyView::Send(seq!["isready"@]),
                )
            } else {
                (self, ReplyView::Wait)
            },
            Stage::Readiness => if trimmed(line) == "readyok"@ {
                (
                    DialogueView { stage: Stage::Move, ..self },
                    ReplyView::Send(seq!["ucinewgame"@, "position startpos"@, "go depth 1"@]),
                )
            } else {
                (self, ReplyView::Wait)
            },
            Stage::Move => if begins_with(line, "bestmove "@) {
                let movement = first_word(after(line, "bestmove "@));
                if is_starting_move(movement) {
                    (
                        DialogueView { stage: Stage::Exit, bestmove: movement, ..self },
                        ReplyView::Send(seq!["quit"@]),
                    )
                } else {
                    (
                        self,
                        engine_error(
                            "engine returned invalid bestmove `"@ + movement + "`"@,
                        ),
                    )
                }
            } else {
                (self, ReplyView::Wait)
            },
            Stage::Exit => (self, ReplyView::Wait),
        }
    }

    /// What the dialogue comes to by an event, and what is done.
    pub open spec fn step(self, event: EventView) -> (DialogueView, ReplyView) {
        match event {
            EventView::Cancelled => (self, ReplyView::Fail(ErrorView::Cancelled)),
            EventView::TimedOut => if self.stage == Stage::Exit {
                (self, engine_error("engine did not exit after quit"@))
            } else {
                (self, engine_error("timed out waiting for "@ + expected_answer(self.stage)))
            },
            EventView::Exited => if self.stage == Stage::Exit {
                (
                    self,
                    ReplyView::Done(
                        IdentityView {
                            name: self.name,
                            author: self.author,
                            bestmove: self.bestmove,
                        },
                    ),
                )
            } else {
                (self, engine_error("engine exited before "@ + expected_answer(self.stage)))
            },
            EventView::Rejected(reason) => if self.stage == Stage::Exit {
                (self, ReplyView::Wait)
            } else {
                (self, engine_error(reason))
            },
            EventView::Line(line) => self.read(line),
        }
    }
}

/// The characters behind a prefix, where the text begins with it.
fn behind(chars: &[char], prefix: &str) -> (rest: Option<Vec<char>>)
    ensures
        match rest {
            Some(rest) => begins_with(chars@, prefix@) && rest@ == after(chars@, prefix@),
            None => !begins_with(chars@, prefix@),
        },
{
    let wanted = chars_of(prefix);
    if starts_with(chars, wanted.as_slice()) {
        let rest = slice_subrange(chars, wanted.len(), chars.len());
        assert(rest@ =~= after(chars@, prefix@));
        Some(crate::text::slice_to_vec(rest))
    } else {
        None
    }
}

fn trims_to(chars: &[char], wanted: &str) -> (answer: bool)
    ensures
        answer == (trimmed(chars@) == wanted@),
{
    crate::text::same_chars(trim(chars).as_slice(), chars_of(wanted).as_slice())
}

fn expected_text(stage: Stage) -> (text: &'static str)
    ensures
        text@ == expected_answer(stage),
{
    match stage {
        Stage::Identity => "uciok",
        Stage::Readiness => "readyok",
        Stage::Move => "bestmove",
        Stage::Exit => "exit",
    }
}

fn one_command(command: &str) -> (commands: Vec<String>)
    ensures
        texts_view(commands@) == seq![command@],
{
    let mut commands: Vec<String> = Vec::new();
    commands.push(command.to_owned());
    assert(texts_view(commands@) =~= seq![command@]);
    commands
}

impl Dialogue {
    /// Begins the dialogue, with the command that is sent first.
    pub fn begin() -> (start: (Dialogue, &'static str))
        ensures
            start.0@ == DialogueView::fresh(),
            start.1@ == "uci"@,
    {
        (
            Dialogue { stage: Stage::Identity, name: None, author: None, bestmove: String::new() },
            "uci",
        )
    }

    /// What is waited for.
    pub fn stage(&self) -> (stage: Stage)
        ensures
            stage == self@.stage,
    {
        self.stage
    }

    /// How long the answer that is waited for may take.
    pub fn timeout(&self, timeouts: &ValidationTimeouts) -> (nanos: u128)
        ensures
            nanos == match self@.stage {
                Stage::Identity => timeouts.uci,
                Stage::Readiness => timeouts.ready,
                Stage::Move => timeouts.search,
                Stage::Exit => timeouts.quit,
            },
    {
        match self.stage {
            Stage::Identity => timeouts.uci,
            Stage::Readiness => timeouts.ready,
            Stage::Move => timeouts.search,
            Stage::Exit => timeouts.quit,
        }
    }

    fn read(&mut self, line: &str) -> (reply: Reply)
        ensures
            (final(self)@, reply@) == old(self)@.read(line@),
    {
        let chars = chars_of(line);
        match self.stage {
            Stage::Identity => {
                match behind(chars.as_slice(), "id name ") {
                    Some(rest) => {
                        self.name = Some(text_of(trim(rest.as_slice()).as_slice()));
                        return Reply::Wait;
                    },
                    None => {},
                }
                match behind(chars.as_slice(), "id author ") {
                    Some(rest) => {
                        self.author = Some(text_of(trim(rest.as_slice()).as_slice()));
                        return Reply::Wait;
                    },
                    None => {},
                }
                if trims_to(chars.as_slice(), "uciok") {
                    self.stage = Stage::Readiness;
                    Reply::Send(one_command("isready"))
                } else {
                    Reply::Wait
                }
            },
            Stage::Readiness => {
                if trims_to(chars.as_slice(), "readyok") {
                    self.stage = Stage::Move;
                    let mut commands: Vec<String> = Vec::new();
                    commands.push("ucinewgame".to_owned());
                    commands.push("position startpos".to_owned());
                    commands.push("go depth 1".to_owned());
                    assert(texts_view(commands@) =~= seq![
                        "ucinewgame"@,
                        "position startpos"@,
                        "go depth 1"@,
                    ]);
                    Reply::Send(commands)
                } else {
                    Reply::Wait
                }
            },
            Stage::Move => match behind(chars.as_slice(), "bestmove ") {
                None => Reply::Wait,
                Some(rest) => {
                    let movement = text_of(take_word(rest.as_slice()).as_slice());
                    if valid_starting_move(movement.as_str()) {
                        self.stage = Stage::Exit;
                        self.bestmove = movement;
                        Reply::Send(one_command("quit"))
                    } else {
                        Reply::Fail(
                            Error::UciValidation(
                                join3(
                                    "engine returned invalid bestmove `",
                                    movement.as_str(),
                                    "`",
                                ),
                            ),
                        )
                    }
                },
            },
            Stage::Exit => Reply::Wait,
        }
    }

    /// Decides what is done upon an event.
    pub fn step(&mut self, event: &EngineEvent) -> (reply: Reply)
        ensures
            (final(self)@, reply@) == old(self)@.step(event@),
    {
        let exiting = match self.stage {
            Stage::Exit => true,
            _ => false,
        };
        match event {
            EngineEvent::Cancelled => Reply::Fail(Error::Cancelled),
            EngineEvent::TimedOut => if exiting {
                Reply::Fail(Error::UciValidation("engine did not exit after quit".to_owned()))
            } else {
                Reply::Fail(
                    Error::UciValidation(
                        join2("timed out waiting for ", expected_text(self.stage)),
                    ),
                )
            },
            EngineEvent::Exited => if exiting {
                Reply::Done(
                    UciIdentity {
                        name: self.name.clone(),
                        author: self.author.clone(),
                        bestmove: self.bestmove.clone(),
                    },
                )
            } else {
                Reply::Fail(
                    Error::UciValidation(join2("engine exited before ", expected_text(self.stage))),
                )
            },
            EngineEvent::Rejected(reason) => if exiting {
                Reply::Wait
            } else {
                Reply::Fail(Error::UciValidation(reason.clone()))
            },
            EngineEvent::Line(line) => self.read(line.as_str()),
        }
    }
}

/// What a dialogue has come to.
#[verifier::ext_equal]
pub struct Transcript {
    /// The dialogue, as far as it went.
    pub dialogue: DialogueView,
    /// The commands that were sent.
    pub sent: Seq<Seq<char>>,
    /// How it ended, where it did.
    pub verdict: Option<Result<IdentityView, ErrorView>>,
}

impl Transcript {
    /// A dialogue in which `uci` was sent.
    pub open spec fn fresh() -> Transcript {
        Transcript { dialogue: DialogueView::fresh(), sent: seq!["uci"@], verdict: None }
    }

    /// What the dialogue has come to after an event; one that ended stays as it is.
    pub open spec fn step(self, event: EventView) -> Transcript {
        if self.verdict is Some {
            self
        } else {
            let (dialogue, reply) = self.dialogue.step(event);
            match reply {
                ReplyView::Wait => Transcript { dialogue, ..self },
                ReplyView::Send(commands) => Transcript {
                    dialogue,
                    sent: self.sent + commands,
                    ..self
                },
                ReplyView::Done(identity) => Transcript {
                    dialogue,
                    verdict: Some(Ok(identity)),
                    ..self
                },
                ReplyView::Fail(error) => Transcript {
                    dialogue,
                    verdict: Some(Err(error)),
                    ..self
                },
            }
        }
    }
}

/// The events of a list.
pub open spec fn events_view(events: Seq<EngineEvent>) -> Seq<EventView> {
    events.map_values(|event: EngineEvent| event@)
}

/// What a dialogue comes to by events.
pub open spec fn transcript(events: Seq<EventView>) -> Transcript
    decreases events.len(),
{
    if events.len() == 0 {
        Transcript::fresh()
    } else {
        transcript(events.drop_last()).step(events.last())
    }
}

/// Judges an engine by everything that happened in the dialogue with it; one that has not been
/// seen to its end has no verdict.
pub fn validate_engine(events: &Vec<EngineEvent>) -> (verdict: Option<Result<UciIdentity, Error>>)
    ensures
        match transcript(events_view(events@)).verdict {
            None => verdict is None,
            Some(Ok(identity)) => verdict matches Some(Ok(found)) && found@ == identity,
            Some(Err(error)) => verdict matches Some(Err(found)) && found@ == error,
        },
{
    let ghost all = events_view(events@);
    let mut dialogue = Dialogue::begin().0;
    assert(all.take(0) =~= Seq::empty());
    for i in 0..events.len()
        invariant
            all == events_view(events@),
            transcript(all.take(i as int)).dialogue == dialogue@,
            transcript(all.take(i as int)).verdict is None,
    {
        proof {
            assert(all.take(i + 1).drop_last() =~= all.take(i as int));
            assert(all.take(i + 1).last() == events@[i as int]@);
        }
        let reply = dialogue.step(&events[i]);
        match reply {
            Reply::Done(identity) => {
                proof {
                    lemma_verdicts_stay(all, i + 1);
                }
                return Some(Ok(identity));
            },
            Reply::Fail(error) => {
                proof {
                    lemma_verdicts_stay(all, i + 1);
                }
                return Some(Err(error));
            },
            _ => {},
        }
    }
    assert(all.take(events@.len() as int) =~= all);
    None
}

proof fn lemma_verdicts_stay(events: Seq<EventView>, count: int)
    requires
        0 <= count <= events.len(),
        transcript(events.take(count)).verdict is Some,
    ensures
        transcript(events) == transcript(events.take(count)),
    decreases events.len() - count,
{
    if count < events.len() {
        assert(events.take(count + 1).drop_last() =~= events.take(count));
        lemma_verdicts_stay(events, count + 1);
    } else {
        assert(events.take(count) =~= events);
    }
}

/// What was sent up to a stage.
pub open spec fn sent_by(stage: Stage) -> Seq<Seq<char>> {
    match stage {
        Stage::Identity => seq!["uci"@],
        Stage::Readiness => seq!["uci"@, "isready"@],
        Stage::Move => seq![
            "uci"@,
            "isready"@,
            "ucinewgame"@,
            "position startpos"@,
            "go depth 1"@,
        ],
        Stage::Exit => seq![
            "uci"@,
            "isready"@,
            "ucinewgame"@,
            "position startpos"@,
            "go depth 1"@,
            "quit"@,
        ],
    }
}

/// However an engine answers, what it is asked and in which order depends on the stage of the
/// dialogue alone; and an engine is accepted only if it was asked everything, found a legal first
/// move and ended when told to.
pub proof fn accepted_engines_answered_everything(events: Seq<EventView>)
    ensures
        transcript(events).sent == sent_by(transcript(events).dialogue.stage),
        transcript(events).verdict matches Some(Ok(identity)) ==> {
            &&& transcript(events).dialogue.stage == Stage::Exit
            &&& is_starting_move(identity.bestmove)
        },
        transcript(events).dialogue.stage == Stage::Exit ==> is_starting_move(
            transcript(events).dialogue.bestmove,
        ),
    decreases events.len(),
{
    if events.len() == 0 {
    } else {
        accepted_engines_answered_everything(events.drop_last());
        let before = transcript(events.drop_last());
        let now = transcript(events);
        assert(now.sent =~= sent_by(now.dialogue.stage));
    }
}

/// Whether an engine printed an answer, white space around it aside.
pub open spec fn answers(event: EventView, answer: Seq<char>) -> bool {
    event matches EventView::Line(line) && trimmed(line) == answer
}

/// Whether an engine printed a move that it found.
pub open spec fn plays(event: EventView, movement: Seq<char>) -> bool {
    event matches EventView::Line(line) && begins_with(line, "bestmove "@) && first_word(
        after(line, "bestmove "@),
    ) == movement
}

/// Where the answers stand that brought a dialogue to its stage.
proof fn lemma_answers(events: Seq<EventView>) -> (at: (int, int, int))
    ensures
        ({
            let reached = transcript(events);
            let stage = reached.dialogue.stage;
            &&& stage != Stage::Identity ==> 0 <= at.0 < events.len() && answers(
                events[at.0],
                "uciok"@,
            )
            &&& stage == Stage::Move || stage == Stage::Exit ==> at.0 < at.1 < events.len()
                && answers(events[at.1], "readyok"@)
            &&& stage == Stage::Exit ==> at.1 < at.2 < events.len() && plays(
                events[at.2],
                reached.dialogue.bestmove,
            )
            &&& reached.verdict matches Some(Ok(identity)) ==> stage == Stage::Exit
                && identity.bestmove == reached.dialogue.bestmove
        }),
    decreases events.len(),
{
    if events.len() == 0 {
        (0, 0, 0)
    } else {
        let at = lemma_answers(events.drop_last());
        let last = events.len() - 1;
        let before = transcript(events.drop_last()).dialogue.stage;
        let now = transcript(events).dialogue.stage;
        if before == now {
            at
        } else if now == Stage::Readiness {
            (last, at.1, at.2)
        } else if now == Stage::Move {
            (at.0, last, at.2)
        } else {
            (at.0, at.1, last)
        }
    }
}

/// An engine is accepted only if it answered `uciok`, then `readyok`, and then the move that is
/// reported of it.
pub proof fn accepted_engines_answered_in_order(events: Seq<EventView>)
    ensures
        transcript(events).verdict matches Some(Ok(identity)) ==> exists|i: int, j: int, k: int|
            0 <= i < j < k < events.len() && #[trigger] answers(events[i], "uciok"@)
                && #[trigger] answers(events[j], "readyok"@) && #[trigger] plays(
                events[k],
                identity.bestmove,
            ),
{
    let at = lemma_answers(events);
}

/// A dialogue that the user cancels ends with that error, unless it had ended before.
pub proof fn cancelling_ends_the_dialogue(events: Seq<EventView>)
    ensures
        transcript(events.push(EventView::Cancelled)).verdict == match transcript(events).verdict {
            Some(verdict) => Some(verdict),
            None => Some(Err::<IdentityView, ErrorView>(ErrorView::Cancelled)),
        },
{
    assert(events.push(EventView::Cancelled).drop_last() =~= events);
}

/// What std's `String::from_utf8_lossy` makes of bytes: a text, with replacement characters for what
/// is not valid UTF-8.
pub uninterp spec fn lossy_text(bytes: Seq<u8>) -> Seq<char>;

/// Calls std's `String::from_utf8_lossy`; the result depends on the bytes alone and is named by
/// [`lossy_text`]. Valid UTF-8 is the text that it spells.
#[verifier::external_body]
pub(crate) fn decode_lossy(bytes: &[u8]) -> (text: String)
    ensures
        text@ == lossy_text(bytes@),
        valid_utf8(bytes@) ==> text@ == decode_utf8(bytes@),
{
    String::from_utf8_lossy(bytes).into_owned()
}

/// Bytes without the line feeds and carriage returns at their end.
pub open spec fn without_line_end(bytes: Seq<u8>) -> Seq<u8>
    decreases bytes.len(),
{
    if bytes.len() > 0 && (bytes.last() == 0x0a || bytes.last() == 0x0d) {
        without_line_end(bytes.drop_last())
    } else {
        bytes
    }
}

/// Why a line that an engine printed is refused, given how much it printed before.
pub open spec fn line_refusal(before: nat, line: Seq<u8>) -> Option<Seq<char>> {
    if line.len() > MAX_OUTPUT_LINE_BYTES {
        Some("engine emitted a line larger than 16 KiB"@)
    } else if before + line.len() > MAX_TOTAL_OUTPUT_BYTES {
        Some("engine emitted more than 4 MiB during validation"@)
    } else {
        None
    }
}

/// How much an engine has printed.
pub struct OutputReader {
    total: u64,
}

impl OutputReader {
    /// The bytes that were accepted.
    pub closed spec fn view(&self) -> nat {
        self.total as nat
    }

    /// No more was accepted than may be.
    pub closed spec fn wf(&self) -> bool {
        self.total <= MAX_TOTAL_OUTPUT_BYTES
    }

    /// Nothing was printed.
    pub fn new() -> (reader: OutputReader)
        ensures
            reader.wf(),
            reader@ == 0,
    {
        OutputReader { total: 0 }
    }

    /// Takes a line as it was read, its end included; what comes of it. After a refusal nothing
    /// more is read.
    pub fn accept(&mut self, line: &[u8]) -> (event: EngineEvent)
        requires
            old(self).wf(),
        ensures
            final(self).wf(),
            match line_refusal(old(self)@, line@) {
                Some(reason) => event@ == EventView::Rejected(reason) && final(self)@ == old(self)@,
                None => {
                    &&& event@ == EventView::Line(lossy_text(without_line_end(line@)))
                    &&& valid_utf8(without_line_end(line@)) ==> event@ == EventView::Line(
                        decode_utf8(without_line_end(line@)),
                    )
                    &&& final(self)@ == old(self)@ + line@.len()
                },
            },
    {
        if line.len() as u64 > MAX_OUTPUT_LINE_BYTES {
            return EngineEvent::Rejected("engine emitted a line larger than 16 KiB".to_owned());
        }
        if self.total + line.len() as u64 > MAX_TOTAL_OUTPUT_BYTES {
            return EngineEvent::Rejected(
                "engine emitted more than 4 MiB during validation".to_owned(),
            );
        }
        self.total = self.total + line.len() as u64;
        EngineEvent::Line(decode_lossy(strip_line_end(line)))
    }
}

/// Bytes without the line feeds and carriage returns at their end.
pub fn strip_line_end(bytes: &[u8]) -> (line: &[u8])
    ensures
        line@ == without_line_end(bytes@),
{
    let mut end: usize = bytes.len();
    assert(bytes@.take(end as int) =~= bytes@);
    while end > 0 && (bytes[end - 1] == 0x0a || bytes[end - 1] == 0x0d)
        invariant
            end <= bytes@.len(),
            without_line_end(bytes@.take(end as int)) == without_line_end(bytes@),
        decreases end,
    {
        assert(bytes@.take(end as int).last() == bytes@[end - 1]);
        assert(bytes@.take(end as int).drop_last() =~= bytes@.take(end - 1));
        end = end - 1;
    }
    proof {
        if end > 0 {
            assert(bytes@.take(end as int).last() == bytes@[end - 1]);
        }
        assert(bytes@.subrange(0, end as int) =~= bytes@.take(end as int));
    }
    slice_subrange(bytes, 0, end)
}

/// The moves that are accepted are the twenty that are legal from the starting position.
pub proof fn the_starting_moves_are_these_twenty(text: Seq<char>)
    ensures
        is_starting_move(text) <==> {
            ||| text == "a2a3"@
            ||| text == "a2a4"@
            ||| text == "b2b3"@
            ||| text == "b2b4"@
            ||| text == "c2c3"@
            ||| text == "c2c4"@
            ||| text == "d2d3"@
            ||| text == "d2d4"@
            ||| text == "e2e3"@
            ||| text == "e2e4"@
            ||| text == "f2f3"@
            ||| text == "f2f4"@
            ||| text == "g2g3"@
            ||| text == "g2g4"@
            ||| text == "h2h3"@
            ||| text == "h2h4"@
            ||| text == "b1a3"@
            ||| text == "b1c3"@
            ||| text == "g1f3"@
            ||| text == "g1h3"@
        },
{
    reveal_strlit("a2a3");
    reveal_strlit("a2a4");
    reveal_strlit("b2b3");
    reveal_strlit("b2b4");
    reveal_strlit("c2c3");
    reveal_strlit("c2c4");
    reveal_strlit("d2d3");
    reveal_strlit("d2d4");
    reveal_strlit("e2e3");
    reveal_strlit("e2e4");
    reveal_strlit("f2f3");
    reveal_strlit("f2f4");
    reveal_strlit("g2g3");
    reveal_strlit("g2g4");
    reveal_strlit("h2h3");
    reveal_strlit("h2h4");
    reveal_strlit("b1a3");
    reveal_strlit("b1c3");
    reveal_strlit("g1f3");
    reveal_strlit("g1h3");
    if is_starting_move(text) {
        if text[0] == 'a' && text[1] == '2' && text[2] == 'a' && text[3] == '3' {
            assert(text =~= "a2a3"@);
        }
        if text[0] == 'a' && text[1] == '2' && text[2] == 'a' && text[3] == '4' {
            assert(text =~= "a2a4"@);
        }
        if text[0] == 'b' && text[1] == '2' && text[2] == 'b' && text[3] == '3' {
            assert(text =~= "b2b3"@);
        }
        if text[0] == 'b' && text[1] == '2' && text[2] == 'b' && text[3] == '4' {
            assert(text =~= "b2b4"@);
        }
        if text[0] == 'c' && text[1] == '2' && text[2] == 'c' && text[3] == '3' {
            assert(text =~= "c2c3"@);
        }
        if text[0] == 'c' && text[1] == '2' && text[2] == 'c' && text[3] == '4' {
            assert(text =~= "c2c4"@);
        }
        if text[0] == 'd' && text[1] == '2' && text[2] == 'd' && text[3] == '3' {
            assert(text =~= "d2d3"@);
        }
        if text[0] == 'd' && text[1] == '2' && text[2] == 'd' && text[3] == '4' {
            assert(text =~= "d2d4"@);
        }
        if text[0] == 'e' && text[1] == '2' && text[2] == 'e' && text[3] == '3' {
            assert(text =~= "e2e3"@);
        }
        if text[0] == 'e' && text[1] == '2' && text[2] == 'e' && text[3] == '4' {
            assert(text =~= "e2e4"@);
        }
        if text[0] == 'f' && text[1] == '2' && text[2] == 'f' && text[3] == '3' {
            assert(text =~= "f2f3"@);
        }
        if text[0] == 'f' && text[1] == '2' && text[2] == 'f' && text[3] == '4' {
            assert(text =~= "f2f4"@);
        }
        if text[0] == 'g' && text[1] == '2' && text[2] == 'g' && text[3] == '3' {
            assert(text =~= "g2g3"@);
        }
        if text[0] == 'g' && text[1] == '2' && text[2] == 'g' && text[3] == '4' {
            assert(text =~= "g2g4"@);
        }
        if text[0] == 'h' && text[1] == '2' && text[2] == 'h' && text[3] == '3' {
            assert(text =~= "h2h3"@);
        }
        if text[0] == 'h' && text[1] == '2' && text[2] == 'h' && text[3] == '4' {
            assert(text =~= "h2h4"@);
        }
        if text[0] == 'b' && text[1] == '1' && text[2] == 'a' && text[3] == '3' {
            assert(text =~= "b1a3"@);
        }
        if text[0] == 'b' && text[1] == '1' && text[2] == 'c' && text[3] == '3' {
            assert(text =~= "b1c3"@);
        }
        if text[0] == 'g' && text[1] == '1' && text[2] == 'f' && text[3] == '3' {
            assert(text =~= "g1f3"@);
        }
        if text[0] == 'g' && text[1] == '1' && text[2] == 'h' && text[3] == '3' {
            assert(text =~= "g1h3"@);
        }
    }
}

/// The first word of a text is what stands between white space at its start, if there is any, and
/// the next white space or the end.
pub proof fn the_first_word_ends_at_white_space(
    blanks: Seq<char>,
    word: Seq<char>,
    rest: Seq<char>,
)
    requires
        forall|i: int| 0 <= i < blanks.len() ==> is_white(#[trigger] blanks[i]),
        forall|i: int| 0 <= i < word.len() ==> !is_white(#[trigger] word[i]),
        word.len() > 0,
        rest.len() > 0 ==> is_white(rest[0]),
    ensures
        first_word(blanks + word + rest) == word,
    decreases blanks.len(),
{
    let all = blanks + word + rest;
    if blanks.len() > 0 {
        let fewer = blanks.skip(1);
        assert forall|i: int| 0 <= i < fewer.len() implies is_white(#[trigger] fewer[i]) by {
            assert(fewer[i] == blanks[i + 1]);
        }
        assert(is_white(all[0])) by {
            assert(all[0] == blanks[0]);
        }
        assert(all.skip(1) =~= fewer + word + rest);
        the_first_word_ends_at_white_space(fewer, word, rest);
    } else {
        assert(all =~= word + rest);
        assert(all[0] == word[0]);
        assert forall|k: int| 0 <= k < word.len() implies !is_white(#[trigger] all[k]) by {
            assert(all[k] == word[k]);
        }
        if rest.len() > 0 {
            assert(all[word.len() as int] == rest[0]);
        }
        lemma_word_length(all, word.len() as int);
        assert(all.take(word.len() as int) =~= word);
    }
}

proof fn lemma_prefix(prefix: Seq<char>, rest: Seq<char>)
    ensures
        begins_with(prefix + rest, prefix),
        after(prefix + rest, prefix) == rest,
{
    assert((prefix + rest).take(prefix.len() as int) =~= prefix);
    assert(after(prefix + rest, prefix) =~= rest);
}

proof fn lemma_plain_answer(answer: Seq<char>)
    requires
        answer == "uciok"@ || answer == "readyok"@,
    ensures
        trimmed(answer) == answer,
        !begins_with(answer, "id name "@),
        !begins_with(answer, "id author "@),
{
    reveal_strlit("uciok");
    reveal_strlit("readyok");
    reveal_strlit("id name ");
    reveal_strlit("id author ");
    trimming_takes_white_space_away(Seq::empty(), answer, Seq::empty());
    assert(Seq::<char>::empty() + answer + Seq::<char>::empty() =~= answer);
}

proof fn lemma_next(events: Seq<EventView>, event: EventView)
    ensures
        transcript(events.push(event)) == transcript(events).step(event),
{
    assert(events.push(event).drop_last() =~= events);
}

proof fn lemma_introduced(name: Seq<char>, author: Seq<char>) -> (events: Seq<EventView>)
    ensures
        events == seq![
            EventView::Line("id name "@ + name),
            EventView::Line("id author "@ + author),
        ],
        transcript(events) == (Transcript {
            dialogue: DialogueView {
                name: Some(trimmed(name)),
                author: Some(trimmed(author)),
                ..DialogueView::fresh()
            },
            ..Transcript::fresh()
        }),
{
    let none: Seq<EventView> = Seq::empty();
    let one = EventView::Line("id name "@ + name);
    let two = EventView::Line("id author "@ + author);
    lemma_prefix("id name "@, name);
    lemma_prefix("id author "@, author);
    assert(!begins_with("id author "@ + author, "id name "@)) by {
        reveal_strlit("id name ");
        reveal_strlit("id author ");
        assert(("id author "@ + author)[3] == 'a');
        assert(("id author "@ + author).take(8)[3] == 'a');
    }
    lemma_next(none, one);
    lemma_next(none.push(one), two);
    assert(none.push(one).push(two) =~= seq![one, two]);
    seq![one, two]
}

proof fn lemma_rest_of_dialogue(events: Seq<EventView>, movement: Seq<char>, rest: Seq<char>)
    requires
        transcript(events).verdict is None,
        transcript(events).dialogue.stage == Stage::Identity,
        is_starting_move(movement),
        rest.len() > 0 ==> is_white(rest[0]),
    ensures
        ({
            let before = transcript(events);
            let reached = transcript(
                events.push(EventView::Line("uciok"@)).push(EventView::Line("readyok"@)).push(
                    EventView::Line("bestmove "@ + movement + rest),
                ).push(EventView::Exited),
            );
            &&& reached.verdict matches Some(Ok(identity)) && identity.name == before.dialogue.name
                && identity.author == before.dialogue.author && identity.bestmove == movement
            &&& reached.sent == seq![
                "uci"@,
                "isready"@,
                "ucinewgame"@,
                "position startpos"@,
                "go depth 1"@,
                "quit"@,
            ]
        }),
{
    let line = "bestmove "@ + movement + rest;
    let first = events.push(EventView::Line("uciok"@));
    let second = first.push(EventView::Line("readyok"@));
    let third = second.push(EventView::Line(line));
    lemma_next(events, EventView::Line("uciok"@));
    lemma_plain_answer("uciok"@);
    assert(transcript(first).dialogue.stage == Stage::Readiness);
    assert(transcript(first).verdict is None);
    lemma_next(first, EventView::Line("readyok"@));
    lemma_plain_answer("readyok"@);
    assert(transcript(second).dialogue.stage == Stage::Move);
    assert(transcript(second).verdict is None);
    lemma_next(second, EventView::Line(line));
    assert(line =~= "bestmove "@ + (movement + rest));
    lemma_prefix("bestmove "@, movement + rest);
    assert forall|i: int| 0 <= i < movement.len() implies !is_white(#[trigger] movement[i]) by {}
    the_first_word_ends_at_white_space(Seq::empty(), movement, rest);
    assert(Seq::<char>::empty() + movement + rest =~= movement + rest);
    assert(transcript(third).dialogue.stage == Stage::Exit);
    assert(transcript(third).dialogue.bestmove == movement);
    assert(transcript(third).verdict is None);
    lemma_next(third, EventView::Exited);
    accepted_engines_answered_everything(third.push(EventView::Exited));
}

/// An engine that says who it is, answers `uciok` and `readyok`, finds a legal first move and then
/// ends is accepted, with its name, its author and its move, having been asked the six questions in
/// their order.
pub proof fn engines_that_answer_are_accepted(
    name: Seq<char>,
    author: Seq<char>,
    movement: Seq<char>,
    rest: Seq<char>,
)
    requires
        is_starting_move(movement),
        rest.len() > 0 ==> is_white(rest[0]),
    ensures
        ({
            let reached = transcript(
                seq![
                    EventView::Line("id name "@ + name),
                    EventView::Line("id author "@ + author),
                    EventView::Line("uciok"@),
                    EventView::Line("readyok"@),
                    EventView::Line("bestmove "@ + movement + rest),
                    EventView::Exited,
                ],
            );
            &&& reached.verdict matches Some(Ok(identity)) && identity.name == Some(trimmed(name))
                && identity.author == Some(trimmed(author)) && identity.bestmove == movement
            &&& reached.sent == seq![
                "uci"@,
                "isready"@,
                "ucinewgame"@,
                "position startpos"@,
                "go depth 1"@,
                "quit"@,
            ]
        }),
        transcript(
            seq![
                EventView::Line("uciok"@),
                EventView::Line("readyok"@),
                EventView::Line("bestmove "@ + movement + rest),
                EventView::Exited,
            ],
        ).verdict matches Some(Ok(identity)) && identity.name is None && identity.author is None
            && identity.bestmove == movement,
{
    let one = EventView::Line("id name "@ + name);
    let two = EventView::Line("id author "@ + author);
    let three = EventView::Line("uciok"@);
    let four = EventView::Line("readyok"@);
    let five = EventView::Line("bestmove "@ + movement + rest);
    let six = EventView::Exited;
    let named = lemma_introduced(name, author);
    lemma_rest_of_dialogue(named, movement, rest);
    assert(seq![one, two, three, four, five, six] =~= named.push(three).push(four).push(five).push(
        six,
    ));
    let unnamed: Seq<EventView> = Seq::empty();
    lemma_rest_of_dialogue(unnamed, movement, rest);
    assert(seq![three, four, five, six] =~= unnamed.push(three).push(four).push(five).push(six));
}

/// Whatever an engine prints besides what is waited for changes nothing, and a line that is refused
/// after the move was found changes nothing either.
pub proof fn other_lines_change_nothing(events: Seq<EventView>, line: Seq<char>)
    requires
        transcript(events).verdict is None,
        match transcript(events).dialogue.stage {
            Stage::Identity => !begins_with(line, "id name "@) && !begins_with(line, "id author "@)
                && trimmed(line) != "uciok"@,
            Stage::Readiness => trimmed(line) != "readyok"@,
            Stage::Move => !begins_with(line, "bestmove "@),
            Stage::Exit => true,
        },
    ensures
        transcript(events.push(EventView::Line(line))) == transcript(events),
        transcript(events).dialogue.stage == Stage::Exit ==> transcript(
            events.push(EventView::Rejected(line)),
        ) == transcript(events),
{
    assert(events.push(EventView::Line(line)).drop_last() =~= events);
    assert(events.push(EventView::Rejected(line)).drop_last() =~= events);
}

/// An engine that is waited for too long fails, as does one that ends or prints what is refused
/// before it was told to end.
pub proof fn engines_that_stop_answering_fail(events: Seq<EventView>, reason: Seq<char>)
    requires
        transcript(events).verdict is None,
    ensures
        transcript(events.push(EventView::TimedOut)).verdict matches Some(
            Err(ErrorView::UciValidation(_)),
        ),
        transcript(events).dialogue.stage != Stage::Exit ==> {
            &&& transcript(events.push(EventView::Exited)).verdict matches Some(
                Err(ErrorView::UciValidation(_)),
            )
            &&& transcript(events.push(EventView::Rejected(reason))).verdict matches Some(
                Err(ErrorView::UciValidation(told)),
            ) && told == reason
        },
        transcript(events).dialogue.stage == Stage::Exit ==> (transcript(
            events.push(EventView::Exited),
        ).verdict matches Some(Ok(identity)) && identity.name == transcript(events).dialogue.name
            && identity.author == transcript(events).dialogue.author && identity.bestmove
            == transcript(events).dialogue.bestmove),
{
    assert(events.push(EventView::TimedOut).drop_last() =~= events);
    assert(events.push(EventView::Exited).drop_last() =~= events);
    assert(events.push(EventView::Rejected(reason)).drop_last() =~= events);
}

/// A line of more than 16 KiB is refused, as is one that brings the output over 4 MiB; every other
/// line is read, without the line feeds and carriage returns behind its last other byte.
pub proof fn output_is_limited(before: nat, line: Seq<u8>, ends: Seq<u8>)
    requires
        line.len() > 0 ==> line.last() != 10 && line.last() != 13,
        forall|i: int| 0 <= i < ends.len() ==> #[trigger] ends[i] == 10 || ends[i] == 13,
    ensures
        line_refusal(before, line) is None <==> line.len() <= 16384 && before + line.len()
            <= 4194304,
        without_line_end(line + ends) == line,
    decreases ends.len(),
{
    if ends.len() > 0 {
        let fewer = ends.drop_last();
        assert((line + ends).drop_last() =~= line + fewer);
        assert((line + ends).last() == ends.last());
        assert forall|i: int| 0 <= i < fewer.len() implies #[trigger] fewer[i] == 10 || fewer[i]
            == 13 by {
            assert(fewer[i] == ends[i]);
        }
        output_is_limited(before, line, fewer);
    } else {
        assert(line + ends =~= line);
    }
}

/// An engine that is waited for too long, or ends too early, fails for the answer that was waited
/// for; one that finds an illegal move fails for that.
pub proof fn failing_engines_say_why(events: Seq<EventView>, movement: Seq<char>, line: Seq<char>)
    requires
        transcript(events).verdict is None,
        plays(EventView::Line(line), movement),
        !is_starting_move(movement),
    ensures
        ({
            let stage = transcript(events).dialogue.stage;
            let late = transcript(events.push(EventView::TimedOut)).verdict->0->Err_0;
            let gone = transcript(events.push(EventView::Exited)).verdict->0->Err_0;
            &&& stage == Stage::Identity ==> late == ErrorView::UciValidation(
                "timed out waiting for "@ + "uciok"@,
            ) && gone == ErrorView::UciValidation("engine exited before "@ + "uciok"@)
            &&& stage == Stage::Readiness ==> late == ErrorView::UciValidation(
                "timed out waiting for "@ + "readyok"@,
            ) && gone == ErrorView::UciValidation("engine exited before "@ + "readyok"@)
            &&& stage == Stage::Move ==> late == ErrorView::UciValidation(
                "timed out waiting for "@ + "bestmove"@,
            ) && gone == ErrorView::UciValidation("engine exited before "@ + "bestmove"@)
            &&& stage == Stage::Exit ==> late == ErrorView::UciValidation(
                "engine did not exit after quit"@,
            )
            &&& stage == Stage::Move ==> transcript(
                events.push(EventView::Line(line)),
            ).verdict->0->Err_0 == ErrorView::UciValidation(
                "engine returned invalid bestmove `"@ + movement + "`"@,
            )
        }),
{
    lemma_next(events, EventView::TimedOut);
    lemma_next(events, EventView::Exited);
    lemma_next(events, EventView::Line(line));
}

} // verus!
