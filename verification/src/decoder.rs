//! The streaming array decoder: a top-level JSON array of delivery records
//! is read from bytes one element at a time.

use vstd::prelude::*;
use vstd::slice::slice_subrange;
use vstd::string::StringExecFns;
use crate::record::{records_view, RecipeData, RecordView};
use crate::text::optional_text;

verus! {

/// What is wrong with the frame of an array.
#[derive(Clone, Copy, Debug, PartialEq, Eq, Structural)]
pub enum ArrayFault {
    /// The first byte that is not whitespace is not `[`, or there is none.
    OpeningBracketNotFound,
    /// After an element, the next byte that is not whitespace is neither `,`
    /// nor `]`, or there is none.
    SeparatorNotFound,
}

/// Why decoding stopped.
#[derive(Clone, Copy, Debug, PartialEq, Eq, Structural)]
pub enum DecodeError {
    /// The source of the bytes failed.
    Io,
    /// The frame of the array is broken.
    MalformedArray(ArrayFault),
    /// The input ends before an element, or within one.
    PrematureEof,
    /// An element is no JSON value, or is not an object with the three
    /// texts of a record.
    ElementInvalid,
}

/// How the JSON parser classifies a failure.
#[derive(Clone, Copy, Debug, PartialEq, Eq, Structural)]
pub enum JsonFailure {
    Io,
    Syntax,
    Data,
    Eof,
}

#[verifier::external_type_specification]
#[verifier::external_body]
pub struct ExJsonValue(serde_json::Value);

/// What `serde_json` parsed at the front of some bytes.
enum ValueParse {
    /// Nothing but whitespace was left.
    Absent,
    /// One JSON value.
    Parsed(serde_json::Value),
    /// The bytes do not start with a JSON value.
    Failed(JsonFailure),
}

/// The members of a JSON object whose value is a string, by key. A value
/// that is no object has none.
pub uninterp spec fn json_text_members(value: serde_json::Value) -> Map<Seq<char>, Seq<char>>;

/// What `serde_json` finds at the front of `bytes` when it reads one value
/// after any whitespace: nothing, the text members of the value, or how it
/// failed; and the offset that it reports afterwards, which after a value is
/// the number of bytes up to the end of that value.
pub uninterp spec fn json_parse(bytes: Seq<u8>) -> (
    Option<Result<Map<Seq<char>, Seq<char>>, JsonFailure>>,
    nat,
);

/// `serde_json::Deserializer::from_slice`, `into_iter` for
/// `serde_json::Value`, one call of the stream's `next`, `Error::classify`
/// on a failure, and the stream's `byte_offset`. The contract names the
/// result, which depends on the bytes alone, and says that the offset lies
/// within the bytes.
#[verifier::external_body]
fn parse_value(bytes: &[u8]) -> (out: (ValueParse, usize))
    ensures
        out.1 <= bytes@.len(),
        out.1 == json_parse(bytes@).1,
        match out.0 {
            ValueParse::Absent => json_parse(bytes@).0 is None,
            ValueParse::Parsed(value) => json_parse(bytes@).0 == Some(
                Ok::<Map<Seq<char>, Seq<char>>, JsonFailure>(json_text_members(value)),
            ),
            ValueParse::Failed(failure) => json_parse(bytes@).0 == Some(
                Err::<Map<Seq<char>, Seq<char>>, JsonFailure>(failure),
            ),
        },
{
    let mut stream = serde_json::Deserializer::from_slice(bytes).into_iter::<serde_json::Value>();
    let parsed = match stream.next() {
        None => ValueParse::Absent,
        Some(Ok(value)) => ValueParse::Parsed(value),
        Some(Err(e)) => ValueParse::Failed(match e.classify() {
            serde_json::error::Category::Io => JsonFailure::Io,
            serde_json::error::Category::Syntax => JsonFailure::Syntax,
            serde_json::error::Category::Data => JsonFailure::Data,
            serde_json::error::Category::Eof => JsonFailure::Eof,
        }),
    };
    (parsed, stream.byte_offset())
}

/// `serde_json::Value::get` with a text key, and the text of the member
/// found where it is a `Value::String`: the text member of that key, if the
/// value has one.
#[verifier::external_body]
fn text_member(value: &serde_json::Value, key: &str) -> (out: Option<String>)
    ensures
        match out {
            Some(text) => json_text_members(*value).dom().contains(key@) && json_text_members(
                *value,
            )[key@] == text@,
            None => !json_text_members(*value).dom().contains(key@),
        },
{
    match value.get(key) {
        Some(serde_json::Value::String(text)) => Some(text.clone()),
        _ => None,
    }
}

/// The member of `members` with the given key, if there is one.
pub open spec fn member_of(members: Map<Seq<char>, Seq<char>>, key: Seq<char>) -> Option<
    Seq<char>,
> {
    if members.dom().contains(key) {
        Some(members[key])
    } else {
        None
    }
}

/// The record made of three members: all three must be there.
pub open spec fn record_of(
    postcode: Option<Seq<char>>,
    recipe: Option<Seq<char>>,
    delivery: Option<Seq<char>>,
) -> Result<RecordView, DecodeError> {
    match (postcode, recipe, delivery) {
        (Some(postcode), Some(recipe), Some(delivery)) => Ok(
            RecordView { postcode, recipe, delivery },
        ),
        _ => Err(DecodeError::ElementInvalid),
    }
}

/// The error that stands for a failure of the JSON parser.
pub open spec fn failure_error(failure: JsonFailure) -> DecodeError {
    match failure {
        JsonFailure::Io => DecodeError::Io,
        JsonFailure::Eof => DecodeError::PrematureEof,
        JsonFailure::Syntax => DecodeError::ElementInvalid,
        JsonFailure::Data => DecodeError::ElementInvalid,
    }
}

/// The outcome of decoding one element, given what the JSON parser found.
pub open spec fn element_result(
    parse: Option<Result<Map<Seq<char>, Seq<char>>, JsonFailure>>,
) -> Result<RecordView, DecodeError> {
    match parse {
        None => Err(DecodeError::PrematureEof),
        Some(Err(failure)) => Err(failure_error(failure)),
        Some(Ok(members)) => record_of(
            member_of(members, "postcode"@),
            member_of(members, "recipe"@),
            member_of(members, "delivery"@),
        ),
    }
}

/// The view of the outcome of decoding one element.
pub open spec fn outcome_view(outcome: Result<RecipeData, DecodeError>) -> Result<
    RecordView,
    DecodeError,
> {
    match outcome {
        Ok(record) => Ok(record@),
        Err(e) => Err(e),
    }
}

impl DecodeError {
    /// The error that stands for a failure of the JSON parser: a failing
    /// source is `Io`, an early end of the input is `PrematureEof`, anything
    /// else is `ElementInvalid`.
    pub fn from_failure(failure: JsonFailure) -> (out: DecodeError)
        ensures
            out == failure_error(failure),
    {
        match failure {
            JsonFailure::Io => DecodeError::Io,
            JsonFailure::Eof => DecodeError::PrematureEof,
            JsonFailure::Syntax => DecodeError::ElementInvalid,
            JsonFailure::Data => DecodeError::ElementInvalid,
        }
    }

    /// The text of the message of an error.
    pub open spec fn message_text(self) -> Seq<char> {
        match self {
            DecodeError::Io => "read failed"@,
            DecodeError::MalformedArray(ArrayFault::OpeningBracketNotFound) =>
                "opening bracket not found"@,
            DecodeError::MalformedArray(ArrayFault::SeparatorNotFound) => "separator not found"@,
            DecodeError::PrematureEof => "premature EOF"@,
            DecodeError::ElementInvalid => "element invalid"@,
        }
    }

    /// A short message that says what went wrong.
    pub fn message(&self) -> (out: String)
        ensures
            out@ == self.message_text(),
    {
        match self {
            DecodeError::Io => String::from_str("read failed"),
            DecodeError::MalformedArray(ArrayFault::OpeningBracketNotFound) => String::from_str(
                "opening bracket not found",
            ),
            DecodeError::MalformedArray(ArrayFault::SeparatorNotFound) => String::from_str(
                "separator not found",
            ),
            DecodeError::PrematureEof => String::from_str("premature EOF"),
            DecodeError::ElementInvalid => String::from_str("element invalid"),
        }
    }
}

impl RecipeData {
    /// The record made of the three texts of an element. An element that
    /// lacks one of them, or holds something else than a text in its place,
    /// is invalid.
    pub fn from_members(
        postcode: Option<String>,
        recipe: Option<String>,
        delivery: Option<String>,
    ) -> (out: Result<RecipeData, DecodeError>)
        ensures
            outcome_view(out) == record_of(
                optional_text(postcode),
                optional_text(recipe),
                optional_text(delivery),
            ),
    {
        match (postcode, recipe, delivery) {
            (Some(postcode), Some(recipe), Some(delivery)) => Ok(
                RecipeData { postcode, recipe, delivery },
            ),
            _ => Err(DecodeError::ElementInvalid),
        }
    }
}

/// The bytes that may stand between the tokens of an array: space, tab,
/// line feed, form feed and carriage return.
pub open spec fn is_whitespace(b: u8) -> bool {
    b == 0x20 || b == 0x09 || b == 0x0a || b == 0x0c || b == 0x0d
}

/// The first position at or after `pos` that holds no whitespace: the
/// length of the bytes where only whitespace is left.
pub open spec fn skip_whitespace(bytes: Seq<u8>, pos: int) -> int
    decreases bytes.len() - pos,
{
    if 0 <= pos < bytes.len() && is_whitespace(bytes[pos]) {
        skip_whitespace(bytes, pos + 1)
    } else {
        pos
    }
}

/// Skipping whitespace moves forward, not past the end, over whitespace
/// only, and stops at a byte that is none.
pub proof fn lemma_skip_whitespace(bytes: Seq<u8>, pos: int)
    requires
        0 <= pos <= bytes.len(),
    ensures
        pos <= skip_whitespace(bytes, pos) <= bytes.len(),
        forall|i: int| pos <= i < skip_whitespace(bytes, pos) ==> is_whitespace(#[trigger] bytes[i]),
        skip_whitespace(bytes, pos) < bytes.len() ==> !is_whitespace(
            bytes[skip_whitespace(bytes, pos)],
        ),
    decreases bytes.len() - pos,
{
    if pos < bytes.len() && is_whitespace(bytes[pos]) {
        lemma_skip_whitespace(bytes, pos + 1);
    }
}

/// The first byte at or after `pos` that is no whitespace, with the
/// position after it.
pub open spec fn next_token(bytes: Seq<u8>, pos: int) -> Option<(u8, int)> {
    let at = skip_whitespace(bytes, pos);
    if 0 <= at < bytes.len() {
        Some((bytes[at], at + 1))
    } else {
        None
    }
}

/// Where a decoder stands between two elements.
#[derive(Clone, Copy, Debug, PartialEq, Eq, Structural)]
pub enum Stage {
    /// Nothing was read yet: the opening bracket is due.
    Opening,
    /// An element was handed out: a separator or the closing bracket is due.
    Separator,
    /// The sequence is exhausted, cleanly or by an error.
    Finished,
}

/// The state of a decoder: how far it has read, and what is due next.
pub struct DecoderState {
    pub pos: int,
    pub stage: Stage,
}

/// One step of a decoder: the state it is left in, and what it hands out.
pub type Step = (DecoderState, Option<Result<RecordView, DecodeError>>);

/// The step that stops on an error, without reading on.
pub open spec fn stop_with(state: DecoderState, error: DecodeError) -> Step {
    (DecoderState { pos: state.pos, stage: Stage::Finished }, Some(Err(error)))
}

/// The step that decodes the element that starts at `start`. After an
/// element, the decoder stands right behind its last byte.
pub open spec fn element_step(bytes: Seq<u8>, state: DecoderState, start: int) -> Step {
    let (parse, used) = json_parse(bytes.skip(start));
    match element_result(parse) {
        Ok(record) => (
            DecoderState { pos: start + used, stage: Stage::Separator },
            Some(Ok(record)),
        ),
        Err(error) => stop_with(state, error),
    }
}

/// The step behind the opening bracket, which ended at `after`: where the
/// next token is `]` the array is empty and the sequence ends cleanly;
/// otherwise the first element is decoded at `after`.
pub open spec fn first_step(bytes: Seq<u8>, state: DecoderState, after: int) -> Step {
    match next_token(bytes, after) {
        Some((b, end)) => if b == 0x5d {
            (DecoderState { pos: end, stage: Stage::Finished }, None)
        } else {
            element_step(bytes, state, after)
        },
        None => element_step(bytes, state, after),
    }
}

/// One step of a decoder on `bytes`.
///
/// Before the first element the next token must be `[`; a `]` right behind
/// it, with nothing but whitespace between the two, ends the sequence
/// cleanly without an element. Before any other element the next token must
/// be `,`; a `]` there ends the sequence cleanly. The element is then
/// decoded where the token ended. Any error exhausts the sequence.
pub open spec fn decoder_step(bytes: Seq<u8>, state: DecoderState) -> Step {
    match state.stage {
        Stage::Finished => (state, None),
        Stage::Opening => match next_token(bytes, state.pos) {
            Some((b, after)) => if b == 0x5b {
                first_step(bytes, state, after)
            } else {
                stop_with(state, DecodeError::MalformedArray(ArrayFault::OpeningBracketNotFound))
            },
            None => stop_with(
                state,
                DecodeError::MalformedArray(ArrayFault::OpeningBracketNotFound),
            ),
        },
        Stage::Separator => match next_token(bytes, state.pos) {
            Some((b, after)) => if b == 0x2c {
                element_step(bytes, state, after)
            } else if b == 0x5d {
                (DecoderState { pos: after, stage: Stage::Finished }, None)
            } else {
                stop_with(state, DecodeError::MalformedArray(ArrayFault::SeparatorNotFound))
            },
            None => stop_with(state, DecodeError::MalformedArray(ArrayFault::SeparatorNotFound)),
        },
    }
}

/// The records of the array in `bytes` from `state` on: every element that
/// the steps hand out, or the error of the first step that fails.
pub open spec fn records_from(bytes: Seq<u8>, state: DecoderState) -> Result<
    Seq<RecordView>,
    DecodeError,
>
    decreases steps_left(bytes, state),
{
    let (next, handed) = decoder_step(bytes, state);
    match handed {
        None => Ok(Seq::empty()),
        Some(Err(error)) => Err(error),
        Some(Ok(record)) => {
            proof {
                lemma_step_progress(bytes, state);
            }
            match records_from(bytes, next) {
                Ok(rest) => Ok(seq![record] + rest),
                Err(error) => Err(error),
            }
        },
    }
}

/// A bound on the number of elements that a decoder can still hand out.
pub open spec fn steps_left(bytes: Seq<u8>, state: DecoderState) -> nat {
    if state.stage == Stage::Finished {
        0
    } else if state.pos >= bytes.len() {
        1
    } else {
        (bytes.len() - state.pos + 1) as nat
    }
}

/// A step that hands out a record reads at least one byte.
pub proof fn lemma_step_progress(bytes: Seq<u8>, state: DecoderState)
    requires
        decoder_step(bytes, state).1 matches Some(Ok(_)),
    ensures
        0 <= state.pos < bytes.len(),
        decoder_step(bytes, state).0.pos > state.pos,
        steps_left(bytes, decoder_step(bytes, state).0) < steps_left(bytes, state),
{
    if 0 <= state.pos <= bytes.len() {
        lemma_skip_whitespace(bytes, state.pos);
    }
}

/// Once a step has handed out an error, the sequence is exhausted: the
/// decoder is finished, and every later step hands out nothing and leaves
/// the decoder as it is.
pub proof fn law_error_exhausts(bytes: Seq<u8>, state: DecoderState)
    requires
        decoder_step(bytes, state).1 matches Some(Err(_)),
    ensures
        decoder_step(bytes, state).0.stage == Stage::Finished,
        decoder_step(bytes, decoder_step(bytes, state).0) == (
            decoder_step(bytes, state).0,
            None::<Result<RecordView, DecodeError>>,
        ),
{
}

/// A step hands out nothing only at the end of the sequence: the decoder is
/// finished afterwards, and stays so.
pub proof fn law_nothing_means_finished(bytes: Seq<u8>, state: DecoderState)
    requires
        decoder_step(bytes, state).1 is None,
    ensures
        decoder_step(bytes, state).0.stage == Stage::Finished,
        decoder_step(bytes, decoder_step(bytes, state).0).1 is None,
{
}

/// An array decodes to records only if it is closed: where decoding from
/// an unfinished state succeeds, a closing bracket stands at or after the
/// position of that state.
pub proof fn law_decoded_array_is_closed(bytes: Seq<u8>, state: DecoderState)
    requires
        0 <= state.pos,
        state.stage != Stage::Finished,
        records_from(bytes, state) is Ok,
    ensures
        exists|i: int| state.pos <= i < bytes.len() && bytes[i] == 0x5d,
    decreases steps_left(bytes, state),
{
    let (next, handed) = decoder_step(bytes, state);
    if state.pos <= bytes.len() {
        lemma_skip_whitespace(bytes, state.pos);
    }
    match handed {
        None => {
            let at = skip_whitespace(bytes, state.pos);
            if state.stage == Stage::Opening {
                lemma_skip_whitespace(bytes, at + 1);
                let end = skip_whitespace(bytes, at + 1);
                assert(state.pos <= end < bytes.len() && bytes[end] == 0x5d);
            } else {
                assert(state.pos <= at < bytes.len() && bytes[at] == 0x5d);
            }
        },
        Some(Err(_)) => {},
        Some(Ok(_)) => {
            lemma_step_progress(bytes, state);
            law_decoded_array_is_closed(bytes, next);
            let i = choose|i: int| next.pos <= i < bytes.len() && bytes[i] == 0x5d;
            assert(state.pos <= i < bytes.len() && bytes[i] == 0x5d);
        },
    }
}

/// An array without elements decodes to no records: where the first token
/// is `[` and the next one is `]`, decoding succeeds with an empty run.
pub proof fn law_empty_array_has_no_records(bytes: Seq<u8>)
    requires
        next_token(bytes, 0) matches Some((b, after)) && b == 0x5b && (next_token(bytes, after)
            matches Some((c, _)) && c == 0x5d),
    ensures
        decode_all(bytes) == Ok::<Seq<RecordView>, DecodeError>(Seq::empty()),
{
}

/// The state in which decoding starts.
pub open spec fn initial_state() -> DecoderState {
    DecoderState { pos: 0, stage: Stage::Opening }
}

/// The records of the array in `bytes`, or the error on which decoding
/// stops. There is no partial result: one bad element fails the whole.
pub open spec fn decode_all(bytes: Seq<u8>) -> Result<Seq<RecordView>, DecodeError> {
    records_from(bytes, initial_state())
}

/// `front`, followed by what decoding yields after it.
pub open spec fn continue_with(
    front: Seq<RecordView>,
    rest: Result<Seq<RecordView>, DecodeError>,
) -> Result<Seq<RecordView>, DecodeError> {
    match rest {
        Ok(records) => Ok(front + records),
        Err(error) => Err(error),
    }
}

/// A pull decoder over the bytes of an array. Each call of `next` reads one
/// element and no further.
pub struct ArrayDecoder<'a> {
    input: &'a [u8],
    pos: usize,
    stage: Stage,
}

impl<'a> ArrayDecoder<'a> {
    #[verifier::type_invariant]
    spec fn within_input(self) -> bool {
        self.pos <= self.input@.len()
    }

    /// The bytes that are decoded.
    pub closed spec fn bytes(&self) -> Seq<u8> {
        self.input@
    }

    /// The state of the decoder.
    pub closed spec fn state(&self) -> DecoderState {
        DecoderState { pos: self.pos as int, stage: self.stage }
    }

    /// The number of bytes read so far.
    pub fn position(&self) -> (pos: usize)
        ensures
            pos == self.state().pos,
    {
        self.pos
    }

    /// Whether the sequence is exhausted.
    pub fn is_finished(&self) -> (r: bool)
        ensures
            r == (self.state().stage == Stage::Finished),
    {
        match self.stage {
            Stage::Finished => true,
            _ => false,
        }
    }

    /// Decodes the element that starts at `start`.
    fn element(&mut self, start: usize) -> (out: Option<Result<RecipeData, DecodeError>>)
        requires
            start <= old(self).bytes().len(),
        ensures
            final(self).bytes() == old(self).bytes(),
            final(self).state().pos <= final(self).bytes().len(),
            (final(self).state(), step_view(out)) == element_step(
                old(self).bytes(),
                old(self).state(),
                start as int,
            ),
    {
        proof {
            use_type_invariant(&*self);
        }
        let rest = slice_subrange(self.input, start, self.input.len());
        assert(rest@ =~= self.input@.skip(start as int));
        let (parsed, used) = parse_value(rest);
        let outcome = match parsed {
            ValueParse::Absent => Err(DecodeError::PrematureEof),
            ValueParse::Failed(failure) => Err(DecodeError::from_failure(failure)),
            ValueParse::Parsed(value) => RecipeData::from_members(
                text_member(&value, "postcode"),
                text_member(&value, "recipe"),
                text_member(&value, "delivery"),
            ),
        };
        match outcome {
            Ok(record) => {
                self.pos = start + used;
                self.stage = Stage::Separator;
                Some(Ok(record))
            },
            Err(error) => {
                self.stage = Stage::Finished;
                Some(Err(error))
            },
        }
    }

    /// Stops the sequence with an error.
    fn stop(&mut self, error: DecodeError) -> (out: Option<Result<RecipeData, DecodeError>>)
        ensures
            final(self).bytes() == old(self).bytes(),
            final(self).state().pos <= final(self).bytes().len(),
            (final(self).state(), step_view(out)) == stop_with(old(self).state(), error),
    {
        proof {
            use_type_invariant(&*self);
        }
        self.stage = Stage::Finished;
        Some(Err(error))
    }

    /// Hands out the next element of the array, or the error that ends the
    /// sequence; `None` once the sequence is exhausted. The decoder reads up
    /// to the end of the element that it hands out and no further.
    pub fn next(&mut self) -> (out: Option<Result<RecipeData, DecodeError>>)
        ensures
            final(self).bytes() == old(self).bytes(),
            final(self).state().pos <= final(self).bytes().len(),
            (final(self).state(), step_view(out)) == decoder_step(
                old(self).bytes(),
                old(self).state(),
            ),
    {
        proof {
            use_type_invariant(&*self);
        }
        match self.stage {
            Stage::Finished => None,
            Stage::Opening => match StatsLoader::read_skipping_ws(self.input, self.pos) {
                Some((b, after)) => if b == 0x5b {
                    match StatsLoader::read_skipping_ws(self.input, after) {
                        Some((0x5d, end)) => {
                            self.pos = end;
                            self.stage = Stage::Finished;
                            None
                        },
                        _ => self.element(after),
                    }
                } else {
                    self.stop(DecodeError::MalformedArray(ArrayFault::OpeningBracketNotFound))
                },
                None => self.stop(DecodeError::MalformedArray(ArrayFault::OpeningBracketNotFound)),
            },
            Stage::Separator => match StatsLoader::read_skipping_ws(self.input, self.pos) {
                Some((b, after)) => if b == 0x2c {
                    self.element(after)
                } else if b == 0x5d {
                    self.pos = after;
                    self.stage = Stage::Finished;
                    None
                } else {
                    self.stop(DecodeError::MalformedArray(ArrayFault::SeparatorNotFound))
                },
                None => self.stop(DecodeError::MalformedArray(ArrayFault::SeparatorNotFound)),
            },
        }
    }
}

/// The view of what a step hands out.
pub open spec fn step_view(handed: Option<Result<RecipeData, DecodeError>>) -> Option<
    Result<RecordView, DecodeError>,
> {
    match handed {
        Some(outcome) => Some(outcome_view(outcome)),
        None => None,
    }
}

/// The view of an optional token.
pub open spec fn token_view(token: Option<(u8, usize)>) -> Option<(u8, int)> {
    match token {
        Some((b, after)) => Some((b, after as int)),
        None => None,
    }
}

/// The entry points of the decoder.
pub struct StatsLoader {}

impl StatsLoader {
    /// Skips whitespace from `pos` on and reads one byte: the byte and the
    /// position after it, or `None` where only whitespace is left.
    pub fn read_skipping_ws(input: &[u8], pos: usize) -> (out: Option<(u8, usize)>)
        requires
            pos <= input@.len(),
        ensures
            token_view(out) == next_token(input@, pos as int),
            out matches Some((_, after)) ==> pos < after <= input@.len(),
    {
        let mut at: usize = pos;
        while at < input.len()
            invariant
                pos <= at <= input@.len(),
                skip_whitespace(input@, pos as int) == skip_whitespace(input@, at as int),
            decreases input@.len() - at,
        {
            let b = input[at];
            if !(b == 0x20 || b == 0x09 || b == 0x0a || b == 0x0c || b == 0x0d) {
                return Some((b, at + 1));
            }
            at += 1;
        }
        None
    }

    /// A decoder at the start of `input`.
    pub fn iter_json_array<'a>(input: &'a [u8]) -> (out: ArrayDecoder<'a>)
        ensures
            out.bytes() == input@,
            out.state() == initial_state(),
    {
        ArrayDecoder { input, pos: 0, stage: Stage::Opening }
    }

    /// Decodes the whole array: all its records in order, or the error on
    /// which decoding stops.
    pub fn load(input: &[u8]) -> (out: Result<Vec<RecipeData>, DecodeError>)
        ensures
            match out {
                Ok(records) => decode_all(input@) == Ok::<Seq<RecordView>, DecodeError>(
                    records_view(records@),
                ),
                Err(error) => decode_all(input@) == Err::<Seq<RecordView>, DecodeError>(error),
            },
    {
        let mut decoder = StatsLoader::iter_json_array(input);
        let mut records: Vec<RecipeData> = Vec::new();
        assert(records_view(records@) =~= Seq::<RecordView>::empty());
        loop
            invariant
                decoder.bytes() == input@,
                decode_all(input@) == continue_with(
                    records_view(records@),
                    records_from(input@, decoder.state()),
                ),
            decreases steps_left(input@, decoder.state()),
        {
            let ghost before = decoder.state();
            let ghost front = records_view(records@);
            match decoder.next() {
                None => {
                    assert(front + Seq::<RecordView>::empty() =~= front);
                    return Ok(records);
                },
                Some(Err(error)) => {
                    return Err(error);
                },
                Some(Ok(record)) => {
                    proof {
                        lemma_step_progress(input@, before);
                    }
                    records.push(record);
                    proof {
                        let grown = records_view(records@);
                        assert(grown =~= front.push(record@));
                        match records_from(input@, decoder.state()) {
                            Ok(rest) => {
                                assert(front + (seq![record@] + rest) =~= grown + rest);
                            },
                            Err(_) => {},
                        }
                    }
                },
            }
        }
    }
}

} // verus!
