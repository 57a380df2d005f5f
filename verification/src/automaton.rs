//! A stack-based automaton to read a stream of tokens.
//!
//! The automaton checks the tokens against the grammar of JSON and hands
//! out, one request at a time, the instructions from which a consumer can
//! build the document, or which it can simply count. It keeps the shape of
//! the nesting and nothing of the content.
use vstd::prelude::*;
use crate::err::{ErrorLoc, TokenizeError, TokenizeErrorView};
use crate::lexer::{advanced, item_view, upcoming, Lexer};
use crate::token::{Token, TokenView};
use crate::value::{Value, ValueView};

verus! {

/// An entry of the context stack: the kind of a value that is still open.
#[derive(Debug, Clone, Copy, PartialEq, Eq, Structural)]
pub enum Stack {
    Array,
    Object,
}

/// The states of the automaton. `Begin` is the first one; `Ended` is the
/// last one, in which nothing more is handed out.
#[derive(Debug, Clone, Copy, PartialEq, Eq, Structural)]
pub enum State {
    Begin,
    InArrayEmpty,
    InArrayLastWasValue,
    InArrayLastWasDelim,
    InObjectEmpty,
    InObjectLastWasKey,
    InObjectLastWasNameDelim,
    InObjectLastWasValue,
    InObjectLastWasDelim,
    End,
    Ended,
}

/// Which action should a parser do at each step of the automaton
#[derive(Debug, PartialEq, Eq)]
pub enum Action {
    /// Nothing to be done
    Nothing,
    /// A new array is to be created
    NewArray,
    /// A new object is to be created
    NewObject,
    /// A new key was read
    NewKey(String),
    /// A value is to be pushed to the last array/object (if none it's because the Value is the value of the whole JSON document)
    Push(Value),
    /// The last array/object ended and is to be pushed
    Close,
    /// The parsing ended
    TheEnd,
}

/// An [`Action`], as mathematics.
pub enum ActionView {
    Nothing,
    NewArray,
    NewObject,
    NewKey(Seq<char>),
    Push(ValueView),
    Close,
    TheEnd,
}

impl View for Action {
    type V = ActionView;

    open spec fn view(&self) -> ActionView {
        match self {
            Action::Nothing => ActionView::Nothing,
            Action::NewArray => ActionView::NewArray,
            Action::NewObject => ActionView::NewObject,
            Action::NewKey(k) => ActionView::NewKey(k@),
            Action::Push(v) => ActionView::Push(v@),
            Action::Close => ActionView::Close,
            Action::TheEnd => ActionView::TheEnd,
        }
    }
}

/// What the automaton remembers between two requests: its state, the kinds
/// of the values that are open, outermost first, and the depth of the key
/// buffer, that is the number of keys handed out whose value is not
/// complete yet.
pub struct Control {
    pub state: State,
    pub stack: Seq<Stack>,
    pub keys: nat,
}

/// What one request to the automaton hands back: an action, a failure, or
/// nothing once it has ended.
pub type Outcome = Option<Result<ActionView, TokenizeErrorView>>;

/// The innermost open value, if there is one.
pub open spec fn top(stack: Seq<Stack>) -> Option<Stack> {
    if stack.len() > 0 {
        Some(stack.last())
    } else {
        None
    }
}

/// The number of objects among the open values.
pub open spec fn objects(stack: Seq<Stack>) -> nat
    decreases stack.len(),
{
    if stack.len() == 0 {
        0
    } else {
        objects(stack.drop_last()) + if stack.last() == Stack::Object {
            1nat
        } else {
            0nat
        }
    }
}

/// The value that a token is by itself: a literal, a string or a number.
pub open spec fn scalar_of(token: TokenView) -> Option<ValueView> {
    match token {
        TokenView::True => Some(ValueView::True),
        TokenView::False => Some(ValueView::False),
        TokenView::Null => Some(ValueView::Null),
        TokenView::String(s) => Some(ValueView::String(s)),
        TokenView::Number(n) => Some(ValueView::Number(n)),
        _ => None,
    }
}

impl Control {
    /// The automaton before the first token.
    pub open spec fn initial() -> Control {
        Control { state: State::Begin, stack: Seq::empty(), keys: 0 }
    }

    /// The same, in the state `Ended`.
    pub open spec fn ended(self) -> Control {
        Control { state: State::Ended, ..self }
    }

    /// The automaton stops with the error `e`.
    pub open spec fn fail(self, e: TokenizeErrorView) -> (Control, Outcome) {
        (self.ended(), Some(Err(e)))
    }

    /// A value is complete, in an array, in an object or as the whole
    /// document as `context` says. In an object it becomes the value of the
    /// last key, which leaves the key buffer; it is a defect if there is no
    /// such key.
    pub open spec fn completed(self, context: Option<Stack>) -> Option<Control> {
        match context {
            None => Some(Control { state: State::End, ..self }),
            Some(Stack::Array) => Some(Control { state: State::InArrayLastWasValue, ..self }),
            Some(Stack::Object) => if self.keys > 0 {
                Some(
                    Control {
                        state: State::InObjectLastWasValue,
                        keys: (self.keys - 1) as nat,
                        ..self
                    },
                )
            } else {
                None
            },
        }
    }

    /// A token arrives where a value may start, in the given context: an
    /// opening bracket opens an array or an object; a literal, a string or a
    /// number is a complete value; nothing else may stand there.
    pub open spec fn begin_value(self, token: TokenView, context: Option<Stack>) -> (
        Control,
        Outcome,
    ) {
        match token {
            TokenView::ArrayBegin => (
                Control { state: State::InArrayEmpty, stack: self.stack.push(Stack::Array), ..self },
                Some(Ok(ActionView::NewArray)),
            ),
            TokenView::ObjectBegin => (
                Control {
                    state: State::InObjectEmpty,
                    stack: self.stack.push(Stack::Object),
                    ..self
                },
                Some(Ok(ActionView::NewObject)),
            ),
            _ => match scalar_of(token) {
                Some(value) => match self.completed(context) {
                    Some(next) => (next, Some(Ok(ActionView::Push(value)))),
                    None => self.fail(TokenizeErrorView::InternalError),
                },
                None => self.fail(TokenizeErrorView::UnexpectedToken(token)),
            },
        }
    }

    /// A string arrives where a key may stand: it enters the key buffer.
    pub open spec fn new_key(self, key: Seq<char>) -> (Control, Outcome) {
        (
            Control { state: State::InObjectLastWasKey, keys: self.keys + 1, ..self },
            Some(Ok(ActionView::NewKey(key))),
        )
    }

    /// A closing bracket arrives where it may stand. The innermost open
    /// value, which must be of the bracket's kind, leaves the stack, and is
    /// then a complete value in what is open around it.
    pub open spec fn close(self, marker: Stack) -> (Control, Outcome) {
        if top(self.stack) == Some(marker) {
            let around = Control { stack: self.stack.drop_last(), ..self };
            match around.completed(top(around.stack)) {
                Some(next) => (next, Some(Ok(ActionView::Close))),
                None => around.fail(TokenizeErrorView::InternalError),
            }
        } else {
            Control { stack: advanced_stack(self.stack), ..self }.fail(
                TokenizeErrorView::InternalError,
            )
        }
    }

    /// The transition on a token, in a state other than `Ended`.
    ///
    /// White space is accepted in every state and changes nothing. After a
    /// complete document every other token is trailing data.
    pub open spec fn on_token(self, token: TokenView) -> (Control, Outcome) {
        if token is WhiteSpace {
            (self, Some(Ok(ActionView::Nothing)))
        } else {
            match self.state {
                State::Begin => self.begin_value(token, None),
                State::InArrayEmpty => match token {
                    TokenView::ArrayEnd => self.close(Stack::Array),
                    _ => self.begin_value(token, Some(Stack::Array)),
                },
                State::InArrayLastWasDelim => self.begin_value(token, Some(Stack::Array)),
                State::InArrayLastWasValue => match token {
                    TokenView::ValueSeparator => (
                        Control { state: State::InArrayLastWasDelim, ..self },
                        Some(Ok(ActionView::Nothing)),
                    ),
                    TokenView::ArrayEnd => self.close(Stack::Array),
                    _ => self.fail(TokenizeErrorView::UnexpectedToken(token)),
                },
                State::InObjectEmpty => match token {
                    TokenView::String(key) => self.new_key(key),
                    TokenView::ObjectEnd => self.close(Stack::Object),
                    _ => self.fail(TokenizeErrorView::UnexpectedToken(token)),
                },
                State::InObjectLastWasKey => match token {
                    TokenView::NameSeparator => (
                        Control { state: State::InObjectLastWasNameDelim, ..self },
                        Some(Ok(ActionView::Nothing)),
                    ),
                    _ => self.fail(TokenizeErrorView::UnexpectedToken(token)),
                },
                State::InObjectLastWasNameDelim => self.begin_value(token, Some(Stack::Object)),
                State::InObjectLastWasValue => match token {
                    TokenView::ValueSeparator => (
                        Control { state: State::InObjectLastWasDelim, ..self },
                        Some(Ok(ActionView::Nothing)),
                    ),
                    TokenView::ObjectEnd => self.close(Stack::Object),
                    _ => self.fail(TokenizeErrorView::UnexpectedToken(token)),
                },
                State::InObjectLastWasDelim => match token {
                    TokenView::String(key) => self.new_key(key),
                    _ => self.fail(TokenizeErrorView::UnexpectedToken(token)),
                },
                State::End => self.fail(TokenizeErrorView::InputTooLong),
                State::Ended => (self, None),
            }
        }
    }

    /// One request to the automaton, when the tokenizer below it hands back
    /// `item`.
    ///
    /// Once ended, the automaton hands out nothing. A lexical error ends it
    /// at once, with that error. The end of the input is the end of the
    /// document if a document is complete, and comes too early if not.
    pub open spec fn step(self, item: Option<Result<TokenView, TokenizeErrorView>>) -> (
        Control,
        Outcome,
    ) {
        if self.state == State::Ended {
            (self, None)
        } else {
            match item {
                Some(Ok(token)) => self.on_token(token),
                Some(Err(e)) => self.fail(e),
                None => if self.state == State::End && self.stack.len() == 0 && self.keys == 0 {
                    (self.ended(), Some(Ok(ActionView::TheEnd)))
                } else {
                    self.fail(TokenizeErrorView::InputEndedEarly)
                },
            }
        }
    }

    /// What holds of the automaton between two requests. Outside a document
    /// nothing is open and no key is pending. Inside, the state says whether
    /// the innermost open value is an array or an object, and every open
    /// object but such an innermost one that waits for a key has one key in
    /// the key buffer.
    pub open spec fn is_consistent(self) -> bool {
        match self.state {
            State::Begin | State::End => self.stack.len() == 0 && self.keys == 0,
            State::Ended => true,
            State::InArrayEmpty | State::InArrayLastWasValue | State::InArrayLastWasDelim => {
                top(self.stack) == Some(Stack::Array) && self.keys == objects(self.stack)
            },
            State::InObjectEmpty | State::InObjectLastWasValue | State::InObjectLastWasDelim => {
                top(self.stack) == Some(Stack::Object) && self.keys + 1 == objects(self.stack)
            },
            State::InObjectLastWasKey | State::InObjectLastWasNameDelim => {
                top(self.stack) == Some(Stack::Object) && self.keys == objects(self.stack)
            },
        }
    }
}

/// A stack after its innermost entry, if it has one, was taken off.
pub open spec fn advanced_stack(stack: Seq<Stack>) -> Seq<Stack> {
    if stack.len() > 0 {
        stack.drop_last()
    } else {
        stack
    }
}

/// There are no more objects among the open values than open values.
pub proof fn objects_bounded(stack: Seq<Stack>)
    ensures
        objects(stack) <= stack.len(),
    decreases stack.len(),
{
    if stack.len() > 0 {
        objects_bounded(stack.drop_last());
    }
}

/// The key buffer of a consistent automaton is never deeper than there are
/// open objects.
pub proof fn keys_bounded(control: Control)
    requires
        control.is_consistent(),
        control.state != State::Ended,
    ensures
        control.keys <= objects(control.stack) <= control.stack.len(),
{
    objects_bounded(control.stack);
}

/// The grammar keeps the automaton consistent, and a consistent automaton
/// never meets a defect: every closing bracket that it accepts finds its
/// open value, and every value that completes in an object finds its key.
/// So it fails with an internal error only where the tokenizer below hands
/// it one.
pub proof fn step_keeps_consistent(
    control: Control,
    item: Option<Result<TokenView, TokenizeErrorView>>,
)
    requires
        control.is_consistent(),
    ensures
        control.step(item).0.is_consistent(),
        control.step(item).1 == Some(Err::<ActionView, _>(TokenizeErrorView::InternalError))
            ==> item == Some(Err::<TokenView, _>(TokenizeErrorView::InternalError)),
{
    let stack = control.stack;
    assert(stack.push(Stack::Array).drop_last() =~= stack);
    assert(stack.push(Stack::Object).drop_last() =~= stack);
    assert(objects(stack.push(Stack::Array)) == objects(stack));
    assert(objects(stack.push(Stack::Object)) == objects(stack) + 1);
    if stack.len() > 0 {
        let around = stack.drop_last();
        assert(objects(stack) == objects(around) + if stack.last() == Stack::Object {
            1nat
        } else {
            0nat
        });
        if around.len() > 0 {
            assert(around.last() == Stack::Object ==> objects(around) >= 1);
        } else {
            assert(objects(around) == 0);
        }
    }
}

/// One request changes the depth of the nesting by one at most, and only an
/// opening bracket makes it deeper. So the context stack never holds more
/// entries than opening brackets were read, and no limit is set to the
/// depth of a document other than what the memory can hold.
pub proof fn step_opens_one_at_most(
    control: Control,
    item: Option<Result<TokenView, TokenizeErrorView>>,
)
    ensures
        control.step(item).0.stack.len() <= control.stack.len() + 1,
        control.step(item).0.stack.len() + 1 >= control.stack.len(),
        control.step(item).0.stack.len() > control.stack.len() ==> item == Some(
            Ok::<_, TokenizeErrorView>(TokenView::ArrayBegin),
        ) || item == Some(Ok::<_, TokenizeErrorView>(TokenView::ObjectBegin)),
{
}

/// A stack-based automaton to read a stream of Tokens.
pub struct Automaton<L: Lexer> {
    lexer: L,
    state: State,
    stack: Vec<Stack>,
    keys: usize,
}

impl<L: Lexer> Automaton<L> {
    /// What the automaton remembers between two requests.
    pub closed spec fn control(&self) -> Control {
        Control { state: self.state, stack: self.stack@, keys: self.keys as nat }
    }

    /// The tokens that the tokenizer below has still to hand out.
    pub closed spec fn pending(&self) -> Seq<TokenView> {
        self.lexer.pending()
    }

    /// The lexical error that follows the pending tokens, if one does.
    pub closed spec fn fault(&self) -> Option<TokenizeErrorView> {
        self.lexer.fault()
    }

    /// The automaton is consistent, as it is from its creation on.
    pub closed spec fn wf(&self) -> bool {
        self.control().is_consistent()
    }

    /// Create a new JSON Automaton
    pub fn new(input: L) -> (automaton: Self)
        ensures
            automaton.wf(),
            automaton.control() == Control::initial(),
            automaton.pending() == input.pending(),
            automaton.fault() == input.fault(),
    {
        Self { lexer: input, state: State::Begin, stack: Vec::new(), keys: 0 }
    }

    /// Hands out the next action: it asks the tokenizer for one token and
    /// makes the transition that the grammar gives for it. After a failure
    /// or after `TheEnd` it hands out nothing more, and leaves the tokenizer
    /// alone.
    pub fn next(&mut self) -> (item: Option<Result<Action, TokenizeError>>)
        requires
            old(self).wf(),
        ensures
            final(self).wf(),
            (final(self).control(), item_view(item)) == old(self).control().step(
                upcoming(old(self).pending(), old(self).fault()),
            ),
            final(self).pending() == (if old(self).control().state == State::Ended {
                old(self).pending()
            } else {
                advanced(old(self).pending())
            }),
            final(self).fault() == old(self).fault(),
            item matches Some(Err(e)) && e@ is InternalError ==> old(self).fault() == Some(
                TokenizeErrorView::InternalError,
            ),
    {
        if let State::Ended = self.state {
            return None;
        }
        proof {
            step_keeps_consistent(
                old(self).control(),
                upcoming(old(self).pending(), old(self).fault()),
            );
        }
        match self.lexer.next() {
            Some(Ok(t)) => Some(self.accept(t)),
            Some(Err(e)) => {
                self.state = State::Ended;
                Some(Err(e))
            },
            None => {
                let complete = matches!(self.state, State::End) && self.stack.len() == 0
                    && self.keys == 0;
                self.state = State::Ended;
                if complete {
                    Some(Ok(Action::TheEnd))
                } else {
                    Some(Err(TokenizeError::InputEndedEarly))
                }
            },
        }
    }

    /// The transition on the token `t`.
    fn accept(&mut self, t: Token) -> (r: Result<Action, TokenizeError>)
        requires
            old(self).wf(),
            old(self).control().state != State::Ended,
        ensures
            final(self).wf(),
            (final(self).control(), item_view(Some(r))) == old(self).control().on_token(t@),
            final(self).lexer == old(self).lexer,
    {
        proof {
            step_keeps_consistent(old(self).control(), Some(Ok(t@)));
            objects_bounded(self.stack@);
            assert(self.stack@.len() == self.stack.len() <= usize::MAX);
        }
        if let Token::WhiteSpace = t {
            return Ok(Action::Nothing);
        }
        match self.state {
            State::Begin => self.value(t, None),
            State::InArrayEmpty => match t {
                Token::ArrayEnd => self.array_end(),
                t => self.value(t, Some(Stack::Array)),
            },
            State::InArrayLastWasDelim => self.value(t, Some(Stack::Array)),
            State::InArrayLastWasValue => match t {
                Token::ValueSeparator => {
                    self.state = State::InArrayLastWasDelim;
                    Ok(Action::Nothing)
                },
                Token::ArrayEnd => self.array_end(),
                t => self.reject(t),
            },
            State::InObjectEmpty => match t {
                Token::String(s) => self.key(s),
                Token::ObjectEnd => self.object_end(),
                t => self.reject(t),
            },
            State::InObjectLastWasKey => match t {
                Token::NameSeparator => {
                    self.state = State::InObjectLastWasNameDelim;
                    Ok(Action::Nothing)
                },
                t => self.reject(t),
            },
            State::InObjectLastWasNameDelim => self.value(t, Some(Stack::Object)),
            State::InObjectLastWasValue => match t {
                Token::ValueSeparator => {
                    self.state = State::InObjectLastWasDelim;
                    Ok(Action::Nothing)
                },
                Token::ObjectEnd => self.object_end(),
                t => self.reject(t),
            },
            State::InObjectLastWasDelim => match t {
                Token::String(s) => self.key(s),
                t => self.reject(t),
            },
            State::End | State::Ended => {
                self.state = State::Ended;
                Err(TokenizeError::InputTooLong)
            },
        }
    }

    /// The token `t` stands where a value may start.
    fn value(&mut self, t: Token, context: Option<Stack>) -> (r: Result<Action, TokenizeError>)
        requires
            !(t@ is WhiteSpace),
        ensures
            (final(self).control(), item_view(Some(r))) == old(self).control().begin_value(
                t@,
                context,
            ),
            final(self).lexer == old(self).lexer,
    {
        match t {
            Token::ArrayBegin => {
                self.state = State::InArrayEmpty;
                self.stack.push(Stack::Array);
                Ok(Action::NewArray)
            },
            Token::ObjectBegin => {
                self.state = State::InObjectEmpty;
                self.stack.push(Stack::Object);
                Ok(Action::NewObject)
            },
            Token::False => self.push(Value::False, context),
            Token::True => self.push(Value::True, context),
            Token::Null => self.push(Value::Null, context),
            Token::String(s) => self.push(Value::String(s), context),
            Token::Number(n) => self.push(Value::Number(n), context),
            t => self.reject(t),
        }
    }

    /// The value `v`, a literal, a string or a number, is complete.
    fn push(&mut self, v: Value, context: Option<Stack>) -> (r: Result<Action, TokenizeError>)
        ensures
            (final(self).control(), item_view(Some(r))) == (match old(self).control().completed(
                context,
            ) {
                Some(next) => (next, Some(Ok(ActionView::Push(v@)))),
                None => old(self).control().fail(TokenizeErrorView::InternalError),
            }),
            final(self).lexer == old(self).lexer,
    {
        match self.complete(context) {
            Ok(()) => Ok(Action::Push(v)),
            Err(e) => Err(e),
        }
    }

    /// A value is complete in the given context.
    fn complete(&mut self, context: Option<Stack>) -> (r: Result<(), TokenizeError>)
        ensures
            match old(self).control().completed(context) {
                Some(next) => r is Ok && final(self).control() == next,
                None => {
                    &&& r matches Err(e) && e@ is InternalError
                    &&& final(self).control() == old(self).control().ended()
                },
            },
            final(self).lexer == old(self).lexer,
    {
        match context {
            None => {
                self.state = State::End;
                Ok(())
            },
            Some(Stack::Array) => {
                self.state = State::InArrayLastWasValue;
                Ok(())
            },
            Some(Stack::Object) => {
                if self.keys > 0 {
                    self.state = State::InObjectLastWasValue;
                    self.keys = self.keys - 1;
                    Ok(())
                } else {
                    self.state = State::Ended;
                    Err(TokenizeError::InternalError(ErrorLoc::new("src/automaton.rs", 645, 25)))
                }
            },
        }
    }

    /// The string `s` stands where a key may stand.
    fn key(&mut self, s: String) -> (r: Result<Action, TokenizeError>)
        requires
            old(self).keys < usize::MAX,
        ensures
            (final(self).control(), item_view(Some(r))) == old(self).control().new_key(s@),
            final(self).lexer == old(self).lexer,
    {
        self.keys = self.keys + 1;
        self.state = State::InObjectLastWasKey;
        Ok(Action::NewKey(s))
    }

    /// The token `t` may not stand where it does.
    fn reject(&mut self, t: Token) -> (r: Result<Action, TokenizeError>)
        ensures
            (final(self).control(), item_view(Some(r))) == old(self).control().fail(
                TokenizeErrorView::UnexpectedToken(t@),
            ),
            final(self).lexer == old(self).lexer,
    {
        self.state = State::Ended;
        Err(TokenizeError::UnexpectedToken(t))
    }

    /// A `]` stands where it may: the innermost open value, an array, is
    /// closed.
    fn array_end(&mut self) -> (r: Result<Action, TokenizeError>)
        ensures
            (final(self).control(), item_view(Some(r))) == old(self).control().close(Stack::Array),
            final(self).lexer == old(self).lexer,
    {
        self.close(Stack::Array)
    }

    /// A `}` stands where it may: the innermost open value, an object, is
    /// closed.
    fn object_end(&mut self) -> (r: Result<Action, TokenizeError>)
        ensures
            (final(self).control(), item_view(Some(r))) == old(self).control().close(
                Stack::Object,
            ),
            final(self).lexer == old(self).lexer,
    {
        self.close(Stack::Object)
    }

    /// The innermost open value, which must be of the kind `marker`, is
    /// closed, and is a complete value in what is open around it.
    fn close(&mut self, marker: Stack) -> (r: Result<Action, TokenizeError>)
        ensures
            (final(self).control(), item_view(Some(r))) == old(self).control().close(marker),
            final(self).lexer == old(self).lexer,
    {
        let closed = self.stack.pop();
        if closed == Some(marker) {
            let around = if self.stack.len() > 0 {
                Some(self.stack[self.stack.len() - 1])
            } else {
                None
            };
            match self.complete(around) {
                Ok(()) => Ok(Action::Close),
                Err(e) => Err(e),
            }
        } else {
            self.state = State::Ended;
            Err(TokenizeError::InternalError(ErrorLoc::new("src/automaton.rs", 718, 17)))
        }
    }
}

} // verus!
