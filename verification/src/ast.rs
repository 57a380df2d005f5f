//! Functions to parse a JSON text.
//!
//! The tree is built from the actions that the automaton hands out, with a
//! stack of the arrays and objects that are still open. Nothing here
//! recurses into the document, so a deeply nested text costs memory and no
//! call depth.
use vstd::prelude::*;
use crate::automaton::{Action, ActionView, Automaton, Control, Stack, State};
use crate::chars::{decoded, Chars};
use crate::err::{ErrorLoc, TokenizeError, TokenizeErrorView};
use crate::grammar::{denotes, parse_is_the_grammar, validate_is_the_grammar};
use crate::lexer::{advanced, upcoming, Lexer};
use crate::lexer_slice::{fault_from, fault_from_is_token_fault, tokens_from, LexerSlice};
use crate::token::TokenView;
use crate::value::{array_view, items_view, members_view, object_view, Value, ValueView};

verus! {

/// An array or an object that is still open, with what it holds so far.
enum Frame {
    Array(Vec<Value>),
    Object(Vec<(String, Value)>),
}

/// A [`Frame`], as mathematics.
pub enum FrameView {
    Array(Seq<ValueView>),
    Object(Seq<(Seq<char>, ValueView)>),
}

impl FrameView {
    /// The value that the frame is once it is closed.
    pub open spec fn closed(self) -> ValueView {
        match self {
            FrameView::Array(items) => ValueView::Array(items),
            FrameView::Object(members) => ValueView::Object(members),
        }
    }

    /// Whether the frame is an array or an object.
    pub open spec fn kind(self) -> Stack {
        match self {
            FrameView::Array(_) => Stack::Array,
            FrameView::Object(_) => Stack::Object,
        }
    }
}

impl View for Frame {
    type V = FrameView;

    closed spec fn view(&self) -> FrameView {
        match self {
            Frame::Array(items) => FrameView::Array(items_view(items@)),
            Frame::Object(members) => FrameView::Object(members_view(members@)),
        }
    }
}

/// What a tree builder holds, as mathematics: the open arrays and objects,
/// outermost first; the keys whose value is not complete yet, oldest first;
/// and the document, once it is complete.
pub struct BuilderView {
    pub stack: Seq<FrameView>,
    pub keys: Seq<Seq<char>>,
    pub value: Option<ValueView>,
}

impl BuilderView {
    /// The builder before the first action.
    pub open spec fn initial() -> BuilderView {
        BuilderView { stack: Seq::empty(), keys: Seq::empty(), value: None }
    }

    /// The complete value `v` goes where it belongs: to the end of the
    /// innermost open array; to the end of the innermost open object, under
    /// the newest key, which is used up; or, where nothing is open, it is
    /// the document. A value for an object without a key is a defect.
    pub open spec fn attach(self, v: ValueView) -> Option<BuilderView> {
        if self.stack.len() == 0 {
            Some(BuilderView { value: Some(v), ..self })
        } else {
            match self.stack.last() {
                FrameView::Array(items) => Some(
                    BuilderView {
                        stack: self.stack.drop_last().push(FrameView::Array(items.push(v))),
                        ..self
                    },
                ),
                FrameView::Object(members) => if self.keys.len() > 0 {
                    Some(
                        BuilderView {
                            stack: self.stack.drop_last().push(
                                FrameView::Object(members.push((self.keys.last(), v))),
                            ),
                            keys: self.keys.drop_last(),
                            ..self
                        },
                    )
                } else {
                    None
                },
            }
        }
    }

    /// The builder after one action, or `None` where the action does not
    /// fit, which is a defect of whatever produced it.
    pub open spec fn apply(self, action: ActionView) -> Option<BuilderView> {
        match action {
            ActionView::Nothing => Some(self),
            ActionView::NewArray => Some(
                BuilderView { stack: self.stack.push(FrameView::Array(Seq::empty())), ..self },
            ),
            ActionView::NewObject => Some(
                BuilderView { stack: self.stack.push(FrameView::Object(Seq::empty())), ..self },
            ),
            ActionView::NewKey(key) => Some(BuilderView { keys: self.keys.push(key), ..self }),
            ActionView::Push(v) => self.attach(v),
            ActionView::Close => if self.stack.len() > 0 {
                BuilderView { stack: self.stack.drop_last(), ..self }.attach(
                    self.stack.last().closed(),
                )
            } else {
                None
            },
            ActionView::TheEnd => Some(self),
        }
    }

    /// What the builder has to show at the end: the document, or a defect
    /// if there is none.
    pub open spec fn finish(self) -> Result<ValueView, TokenizeErrorView> {
        match self.value {
            Some(v) => Ok(v),
            None => Err(TokenizeErrorView::InternalError),
        }
    }
}

/// The views of the open frames.
spec fn frames_view(frames: Seq<Frame>) -> Seq<FrameView> {
    Seq::new(frames.len(), |i: int| frames[i]@)
}

/// The views of the pending keys.
spec fn keys_view(keys: Seq<String>) -> Seq<Seq<char>> {
    Seq::new(keys.len(), |i: int| keys[i]@)
}

/// Builds the document tree from the actions of the automaton.
pub struct TreeBuilder {
    stack: Vec<Frame>,
    keys: Vec<String>,
    value: Option<Value>,
}

impl View for TreeBuilder {
    type V = BuilderView;

    closed spec fn view(&self) -> BuilderView {
        BuilderView {
            stack: frames_view(self.stack@),
            keys: keys_view(self.keys@),
            value: match self.value {
                Some(v) => Some(v@),
                None => None,
            },
        }
    }
}

/// The view of what parsing handed back.
pub open spec fn parsed(r: Result<Value, TokenizeError>) -> Result<ValueView, TokenizeErrorView> {
    match r {
        Ok(v) => Ok(v@),
        Err(e) => Err(e@),
    }
}

/// The view of what validating handed back.
pub open spec fn validated(r: Result<(), TokenizeError>) -> Result<(), TokenizeErrorView> {
    match r {
        Ok(()) => Ok(()),
        Err(e) => Err(e@),
    }
}

impl TreeBuilder {
    /// A builder that has seen no action.
    pub fn new() -> (builder: Self)
        ensures
            builder@ == BuilderView::initial(),
    {
        let builder = Self { stack: Vec::new(), keys: Vec::new(), value: None };
        assert(builder@.stack =~= Seq::empty());
        assert(builder@.keys =~= Seq::empty());
        builder
    }

    /// Follows one action. An action that does not fit is answered with an
    /// internal error, and leaves the builder of no further use.
    pub fn apply(&mut self, action: Action) -> (r: Result<(), TokenizeError>)
        ensures
            match old(self)@.apply(action@) {
                Some(next) => r is Ok && final(self)@ == next,
                None => r matches Err(e) && e@ is InternalError,
            },
    {
        match action {
            Action::Nothing => Ok(()),
            Action::NewArray => {
                self.stack.push(Frame::Array(Vec::new()));
                proof {
                    assert(items_view(Seq::<Value>::empty()) =~= Seq::empty());
                    assert(final(self)@.stack =~= old(self)@.stack.push(
                        FrameView::Array(Seq::empty()),
                    ));
                }
                Ok(())
            },
            Action::NewObject => {
                self.stack.push(Frame::Object(Vec::new()));
                proof {
                    assert(members_view(Seq::<(String, Value)>::empty()) =~= Seq::empty());
                    assert(final(self)@.stack =~= old(self)@.stack.push(
                        FrameView::Object(Seq::empty()),
                    ));
                }
                Ok(())
            },
            Action::NewKey(k) => {
                self.keys.push(k);
                assert(final(self)@.keys =~= old(self)@.keys.push(k@));
                Ok(())
            },
            Action::Push(v) => self.attach(v),
            Action::Close => {
                let v = match self.stack.pop() {
                    Some(Frame::Array(a)) => {
                        proof {
                            array_view(a);
                        }
                        Value::Array(a)
                    },
                    Some(Frame::Object(o)) => {
                        proof {
                            object_view(o);
                        }
                        Value::Object(o)
                    },
                    None => {
                        return Err(TokenizeError::InternalError(ErrorLoc::new("src/ast.rs", 253, 36)));
                    },
                };
                assert(self@.stack =~= old(self)@.stack.drop_last());
                self.attach(v)
            },
            Action::TheEnd => Ok(()),
        }
    }

    /// Puts the complete value `v` where it belongs.
    fn attach(&mut self, v: Value) -> (r: Result<(), TokenizeError>)
        ensures
            match old(self)@.attach(v@) {
                Some(next) => r is Ok && final(self)@ == next,
                None => r matches Err(e) && e@ is InternalError,
            },
    {
        match self.stack.pop() {
            Some(Frame::Array(a)) => {
                let mut a = a;
                a.push(v);
                self.stack.push(Frame::Array(a));
                proof {
                    let before = old(self)@.stack.last()->Array_0;
                    assert(items_view(a@) =~= before.push(v@));
                    assert(final(self)@.stack =~= old(self)@.stack.drop_last().push(
                        FrameView::Array(before.push(v@)),
                    ));
                }
                Ok(())
            },
            Some(Frame::Object(o)) => match self.keys.pop() {
                Some(k) => {
                    let mut o = o;
                    o.push((k, v));
                    self.stack.push(Frame::Object(o));
                    proof {
                        let before = old(self)@.stack.last()->Object_0;
                        assert(members_view(o@) =~= before.push((k@, v@)));
                        assert(final(self)@.stack =~= old(self)@.stack.drop_last().push(
                            FrameView::Object(before.push((k@, v@))),
                        ));
                        assert(final(self)@.keys =~= old(self)@.keys.drop_last());
                    }
                    Ok(())
                },
                None => Err(TokenizeError::InternalError(ErrorLoc::new("src/ast.rs", 300, 29))),
            },
            None => {
                self.value = Some(v);
                assert(final(self)@.stack =~= old(self)@.stack);
                Ok(())
            },
        }
    }

    /// The document that was built, or an internal error if none was.
    pub fn finish(self) -> (r: Result<Value, TokenizeError>)
        ensures
            parsed(r) == self@.finish(),
    {
        match self.value {
            Some(v) => Ok(v),
            None => Err(TokenizeError::InternalError(ErrorLoc::new("src/ast.rs", 317, 25))),
        }
    }
}

/// What parsing hands back when the automaton is in `control`, the builder
/// has built `builder`, the tokens `pending` are still to come and `fault`
/// is how the input ends.
///
/// Each action of the automaton goes to the builder. The first failure of
/// the automaton is the result. At `TheEnd`, and also where the automaton
/// hands out nothing more, the result is what the builder has to show.
pub open spec fn parsing(
    control: Control,
    builder: BuilderView,
    pending: Seq<TokenView>,
    fault: Option<TokenizeErrorView>,
) -> Result<ValueView, TokenizeErrorView>
    decreases pending.len(),
    via parsing_ends
{
    match control.step(upcoming(pending, fault)) {
        (_, None) => builder.finish(),
        (_, Some(Err(e))) => Err(e),
        (_, Some(Ok(ActionView::TheEnd))) => builder.finish(),
        (next, Some(Ok(action))) => match builder.apply(action) {
            Some(built) => parsing(next, built, advanced(pending), fault),
            None => Err(TokenizeErrorView::InternalError),
        },
    }
}

#[via_fn]
proof fn parsing_ends(
    control: Control,
    builder: BuilderView,
    pending: Seq<TokenView>,
    fault: Option<TokenizeErrorView>,
) {
    action_takes_token(control, pending, fault);
}

/// What validating hands back when the automaton is in `control`, the
/// tokens `pending` are still to come and `fault` is how the input ends:
/// the text is valid if the automaton gets to `TheEnd`, and its first
/// failure is the result if it does not.
pub open spec fn validating(
    control: Control,
    pending: Seq<TokenView>,
    fault: Option<TokenizeErrorView>,
) -> Result<(), TokenizeErrorView>
    decreases pending.len(),
    via validating_ends
{
    match control.step(upcoming(pending, fault)) {
        (_, None) => Err(TokenizeErrorView::InternalError),
        (_, Some(Err(e))) => Err(e),
        (_, Some(Ok(ActionView::TheEnd))) => Ok(()),
        (next, Some(Ok(_))) => validating(next, advanced(pending), fault),
    }
}

#[via_fn]
proof fn validating_ends(
    control: Control,
    pending: Seq<TokenView>,
    fault: Option<TokenizeErrorView>,
) {
    action_takes_token(control, pending, fault);
}

/// The automaton hands out an action other than `TheEnd` only for a token
/// that it takes from those that are pending, and has not ended then.
pub proof fn action_takes_token(
    control: Control,
    pending: Seq<TokenView>,
    fault: Option<TokenizeErrorView>,
)
    ensures
        control.step(upcoming(pending, fault)) matches (next, Some(Ok(action))) ==> action
            is TheEnd || (pending.len() > 0 && control.state != State::Ended && next.state
            != State::Ended),
{
}

/// The builder is in step with the automaton: it has open what the
/// automaton has open, it holds as many keys as the automaton counts, and
/// it has the document once the automaton has seen it whole.
pub open spec fn in_step(control: Control, builder: BuilderView) -> bool {
    &&& control.is_consistent()
    &&& control.state != State::Ended ==> {
        &&& builder.stack.len() == control.stack.len()
        &&& forall|i: int|
            0 <= i < control.stack.len() ==> (#[trigger] builder.stack[i]).kind()
                == control.stack[i]
        &&& builder.keys.len() == control.keys
        &&& control.state == State::End ==> builder.value is Some
    }
}

/// A builder that is in step with the automaton can follow the next action
/// of the automaton, whatever it is, and is in step afterwards.
pub proof fn builder_keeps_step(
    control: Control,
    builder: BuilderView,
    item: Option<Result<TokenView, TokenizeErrorView>>,
)
    requires
        in_step(control, builder),
    ensures
        control.step(item).1 matches Some(Ok(action)) ==> builder.apply(action) is Some && in_step(
            control.step(item).0,
            builder.apply(action)->Some_0,
        ),
{
    crate::automaton::step_keeps_consistent(control, item);
    let (next, outcome) = control.step(item);
    match outcome {
        Some(Ok(action)) => {
            let built = builder.apply(action)->Some_0;
            let stack = control.stack;
            if stack.len() > 0 {
                assert(builder.stack.last().kind() == stack.last());
                let around = builder.stack.drop_last();
                if around.len() > 0 {
                    assert(around.last() == builder.stack[stack.len() - 2]);
                }
            }
            assert(builder.apply(action) is Some);
            if next.state != State::Ended {
                assert forall|i: int| 0 <= i < next.stack.len() implies (#[trigger] built.stack[i]).kind()
                    == next.stack[i] by {
                    if i < stack.len() {
                        assert(builder.stack[i].kind() == stack[i]);
                    }
                }
            }
        },
        _ => {},
    }
}

/// Validating and parsing agree: from an automaton that has not ended and
/// a builder in step with it, the text is valid if and only if parsing
/// yields a document, and if it is not then both fail with the same
/// error. That error is an internal one only where the tokenizer hands one
/// out.
pub proof fn validating_agrees_with_parsing(
    control: Control,
    builder: BuilderView,
    pending: Seq<TokenView>,
    fault: Option<TokenizeErrorView>,
)
    requires
        in_step(control, builder),
        control.state != State::Ended,
    ensures
        validating(control, pending, fault) == (match parsing(control, builder, pending, fault) {
            Ok(_) => Ok::<(), TokenizeErrorView>(()),
            Err(e) => Err(e),
        }),
        parsing(control, builder, pending, fault) == Err::<ValueView, _>(
            TokenizeErrorView::InternalError,
        ) ==> fault == Some(TokenizeErrorView::InternalError),
    decreases pending.len(),
{
    let item = upcoming(pending, fault);
    crate::automaton::step_keeps_consistent(control, item);
    builder_keeps_step(control, builder, item);
    match control.step(item) {
        (next, Some(Ok(action))) => {
            if !(action is TheEnd) {
                validating_agrees_with_parsing(
                    next,
                    builder.apply(action)->Some_0,
                    advanced(pending),
                    fault,
                );
            }
        },
        _ => {},
    }
}

/// A text is valid if and only if parsing it yields a document. If it is
/// not valid, validating and parsing fail with the same error.
pub proof fn validate_iff_parse(pending: Seq<TokenView>, fault: Option<TokenizeErrorView>)
    ensures
        validating(Control::initial(), pending, fault) is Ok <==> parsing(
            Control::initial(),
            BuilderView::initial(),
            pending,
            fault,
        ) is Ok,
        validating(Control::initial(), pending, fault) == (match parsing(
            Control::initial(),
            BuilderView::initial(),
            pending,
            fault,
        ) {
            Ok(_) => Ok::<(), TokenizeErrorView>(()),
            Err(e) => Err(e),
        }),
{
    validating_agrees_with_parsing(Control::initial(), BuilderView::initial(), pending, fault);
}

/// Reading what a tokenizer hands out never ends in an internal error,
/// unless the tokenizer itself hands one out: the automaton and the tree
/// builder never meet a defect.
pub proof fn parsing_meets_no_defect(pending: Seq<TokenView>, fault: Option<TokenizeErrorView>)
    requires
        fault != Some(TokenizeErrorView::InternalError),
    ensures
        parsing(Control::initial(), BuilderView::initial(), pending, fault) != Err::<ValueView, _>(
            TokenizeErrorView::InternalError,
        ),
        validating(Control::initial(), pending, fault) != Err::<(), _>(
            TokenizeErrorView::InternalError,
        ),
{
    validating_agrees_with_parsing(Control::initial(), BuilderView::initial(), pending, fault);
}

/// Parse the input (and check that it's valid as whole)
pub fn parse_and_valid<L: Lexer>(input: L) -> (r: Result<Value, TokenizeError>)
    ensures
        parsed(r) == parsing(
            Control::initial(),
            BuilderView::initial(),
            input.pending(),
            input.fault(),
        ),
{
    let mut automaton = Automaton::new(input);
    let mut builder = TreeBuilder::new();
    loop
        invariant
            automaton.wf(),
            automaton.fault() == input.fault(),
            parsing(Control::initial(), BuilderView::initial(), input.pending(), input.fault())
                == parsing(automaton.control(), builder@, automaton.pending(), automaton.fault()),
        decreases
            automaton.pending().len(),
            if automaton.control().state == State::Ended {
                0int
            } else {
                1int
            },
    {
        proof {
            action_takes_token(automaton.control(), automaton.pending(), automaton.fault());
        }
        match automaton.next() {
            Some(Ok(Action::TheEnd)) => {
                return builder.finish();
            },
            Some(Ok(action)) => match builder.apply(action) {
                Ok(()) => {},
                Err(e) => {
                    return Err(e);
                },
            },
            Some(Err(e)) => {
                return Err(e);
            },
            None => {
                return builder.finish();
            },
        }
    }
}

/// Checks that the input is valid as a whole, without building anything.
pub fn validate_tokens<L: Lexer>(input: L) -> (r: Result<(), TokenizeError>)
    ensures
        validated(r) == validating(Control::initial(), input.pending(), input.fault()),
{
    let mut automaton = Automaton::new(input);
    loop
        invariant
            automaton.wf(),
            automaton.fault() == input.fault(),
            validating(Control::initial(), input.pending(), input.fault()) == validating(
                automaton.control(),
                automaton.pending(),
                automaton.fault(),
            ),
        decreases
            automaton.pending().len(),
            if automaton.control().state == State::Ended {
                0int
            } else {
                1int
            },
    {
        proof {
            action_takes_token(automaton.control(), automaton.pending(), automaton.fault());
        }
        match automaton.next() {
            Some(Ok(Action::TheEnd)) => {
                return Ok(());
            },
            Some(Ok(_)) => {},
            Some(Err(e)) => {
                return Err(e);
            },
            None => {
                return Err(TokenizeError::InternalError(ErrorLoc::new("src/ast.rs", 625, 28)));
            },
        }
    }
}

/// The document that a text denotes, or why it denotes none.
pub open spec fn parse_of_text(text: Seq<char>) -> Result<ValueView, TokenizeErrorView> {
    parsing(
        Control::initial(),
        BuilderView::initial(),
        tokens_from(text, 0),
        fault_from(text, 0),
    )
}

/// Whether a text is valid, and why if it is not.
pub open spec fn validate_of_text(text: Seq<char>) -> Result<(), TokenizeErrorView> {
    validating(Control::initial(), tokens_from(text, 0), fault_from(text, 0))
}

/// The document that the bytes denote, or why they denote none. Bytes that
/// are no valid UTF-8 are no text.
pub open spec fn parse_of(bytes: Seq<u8>) -> Result<ValueView, TokenizeErrorView> {
    match decoded(bytes) {
        Some(text) => parse_of_text(text),
        None => Err(TokenizeErrorView::InvalidUTF8),
    }
}

/// Whether the bytes are a valid JSON text, and why if they are not.
pub open spec fn validate_of(bytes: Seq<u8>) -> Result<(), TokenizeErrorView> {
    match decoded(bytes) {
        Some(text) => validate_of_text(text),
        None => Err(TokenizeErrorView::InvalidUTF8),
    }
}

/// Parses a JSON text and builds the document that it denotes.
///
/// The result is a document exactly where the bytes are the UTF-8 encoding
/// of a text that the grammar of JSON allows, and is then the value that
/// the text denotes. Every other input is rejected, with the first error
/// that reading it from its start meets.
pub fn parse(bytes: &[u8]) -> (r: Result<Value, TokenizeError>)
    ensures
        parsed(r) == parse_of(bytes@),
        forall|value: ValueView|
            parsed(r) == Ok::<_, TokenizeErrorView>(value) <==> (decoded(bytes@) matches Some(
                text,
            ) && denotes(text, value)),
        !(r matches Err(e) && e@ is InternalError),
{
    proof {
        assert forall|value: ValueView|
            parse_of(bytes@) == Ok::<_, TokenizeErrorView>(value) <==> (decoded(
                bytes@,
            ) matches Some(text) && denotes(text, value)) by {
            parse_is_the_grammar(bytes@, value);
        }
    }
    let mut source = Chars::new(bytes);
    let text = match source.read_all() {
        Ok(text) => text,
        Err(e) => {
            return Err(e);
        },
    };
    proof {
        no_internal_error(bytes@);
    }
    parse_and_valid(LexerSlice::new(text.as_slice()))
}

/// Checks that the bytes are a valid JSON text, without building the
/// document.
///
/// The bytes are valid exactly where parsing them yields a document, that
/// is where they are the UTF-8 encoding of a text that denotes some value,
/// and are rejected with the same error as by parsing where they are not.
pub fn validate(bytes: &[u8]) -> (r: Result<(), TokenizeError>)
    ensures
        validated(r) == validate_of(bytes@),
        r is Ok <==> parse_of(bytes@) is Ok,
        r is Ok <==> (decoded(bytes@) matches Some(text) && exists|value: ValueView|
            denotes(text, value)),
        r matches Err(e) ==> parse_of(bytes@) == Err::<ValueView, _>(e@),
        !(r matches Err(e) && e@ is InternalError),
{
    proof {
        validate_is_the_grammar(bytes@);
    }
    let mut source = Chars::new(bytes);
    let text = match source.read_all() {
        Ok(text) => text,
        Err(e) => {
            return Err(e);
        },
    };
    proof {
        no_internal_error(bytes@);
        validate_agrees_with_parse(bytes@);
    }
    validate_tokens(LexerSlice::new(text.as_slice()))
}

/// The two entry points agree: bytes are a valid JSON text if and only if
/// parsing them yields a document, and they are rejected with the same
/// error by both if they are not.
pub proof fn validate_agrees_with_parse(bytes: Seq<u8>)
    ensures
        validate_of(bytes) is Ok <==> parse_of(bytes) is Ok,
        validate_of(bytes) == (match parse_of(bytes) {
            Ok(_) => Ok::<(), TokenizeErrorView>(()),
            Err(e) => Err(e),
        }),
{
    match decoded(bytes) {
        Some(text) => {
            validate_iff_parse(tokens_from(text, 0), fault_from(text, 0));
        },
        None => {},
    }
}

/// No input makes the parser fail with an internal error: whatever the
/// bytes, it yields a document or rejects the input.
pub proof fn no_internal_error(bytes: Seq<u8>)
    ensures
        parse_of(bytes) != Err::<ValueView, _>(TokenizeErrorView::InternalError),
        validate_of(bytes) != Err::<(), _>(TokenizeErrorView::InternalError),
{
    match decoded(bytes) {
        Some(text) => {
            fault_from_is_token_fault(text, 0);
            parsing_meets_no_defect(tokens_from(text, 0), fault_from(text, 0));
        },
        None => {},
    }
}

} // verus!
