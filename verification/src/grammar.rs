//! The grammar of JSON, on tokens, and what the parser has to do with it.
use vstd::prelude::*;
use crate::ast::{
    builder_keeps_step, in_step, parse_of, parsing, validate_agrees_with_parse, validate_of,
    BuilderView, FrameView,
};
use crate::automaton::{Control, Stack, State};
use crate::chars::decoded;
use crate::err::TokenizeErrorView;
use crate::lexer_slice::{fault_from, tokens_from};
use crate::token::TokenView;
use crate::value::ValueView;

verus! {

/// The tokens that write a value, without any white space.
pub open spec fn tokens_of(value: ValueView) -> Seq<TokenView>
    decreases value,
{
    match value {
        ValueView::Array(items) => seq![TokenView::ArrayBegin] + items_tokens(items)
            + seq![TokenView::ArrayEnd],
        ValueView::Object(members) => seq![TokenView::ObjectBegin] + members_tokens(members)
            + seq![TokenView::ObjectEnd],
        ValueView::Number(n) => seq![TokenView::Number(n)],
        ValueView::String(s) => seq![TokenView::String(s)],
        ValueView::True => seq![TokenView::True],
        ValueView::False => seq![TokenView::False],
        ValueView::Null => seq![TokenView::Null],
    }
}

/// The tokens that write the items of an array: a comma stands between
/// two items.
pub open spec fn items_tokens(items: Seq<ValueView>) -> Seq<TokenView>
    decreases items,
{
    if items.len() == 0 {
        Seq::empty()
    } else if items.len() == 1 {
        tokens_of(items[0])
    } else {
        items_tokens(items.drop_last()) + seq![TokenView::ValueSeparator] + tokens_of(
            items.last(),
        )
    }
}

/// The tokens that write the members of an object: a colon stands between
/// a name and its value, and a comma between two members.
pub open spec fn members_tokens(members: Seq<(Seq<char>, ValueView)>) -> Seq<TokenView>
    decreases members,
{
    if members.len() == 0 {
        Seq::empty()
    } else if members.len() == 1 {
        seq![TokenView::String(members[0].0), TokenView::NameSeparator] + tokens_of(members[0].1)
    } else {
        members_tokens(members.drop_last()) + seq![
            TokenView::ValueSeparator,
            TokenView::String(members.last().0),
            TokenView::NameSeparator,
        ] + tokens_of(members.last().1)
    }
}

/// The automaton and the builder after the token `token`, if the automaton
/// accepts it and the builder can follow.
pub open spec fn feed(control: Control, builder: BuilderView, token: TokenView) -> Option<
    (Control, BuilderView),
> {
    match control.step(Some(Ok(token))) {
        (next, Some(Ok(action))) => match builder.apply(action) {
            Some(built) => Some((next, built)),
            None => None,
        },
        _ => None,
    }
}

/// The automaton and the builder after the tokens `tokens`, if the
/// automaton accepts them all and the builder can follow.
pub open spec fn run(control: Control, builder: BuilderView, tokens: Seq<TokenView>) -> Option<
    (Control, BuilderView),
>
    decreases tokens.len(),
{
    if tokens.len() == 0 {
        Some((control, builder))
    } else {
        match feed(control, builder, tokens[0]) {
            Some((next, built)) => run(next, built, tokens.drop_first()),
            None => None,
        }
    }
}

/// Running over one token is feeding it.
pub proof fn run_one(control: Control, builder: BuilderView, token: TokenView)
    ensures
        run(control, builder, seq![token]) == feed(control, builder, token),
{
    let tokens = seq![token];
    assert(tokens.drop_first() =~= Seq::empty());
    match feed(control, builder, token) {
        Some((next, built)) => {
            assert(run(next, built, tokens.drop_first()) == Some((next, built)));
        },
        None => {},
    }
}

/// Running over two runs of tokens in a row is running over the first and
/// then, from where that got, over the second.
pub proof fn run_both(
    control: Control,
    builder: BuilderView,
    first: Seq<TokenView>,
    second: Seq<TokenView>,
)
    ensures
        run(control, builder, first + second) == (match run(control, builder, first) {
            Some((next, built)) => run(next, built, second),
            None => None,
        }),
    decreases first.len(),
{
    if first.len() == 0 {
        assert(first + second =~= second);
    } else {
        assert((first + second)[0] == first[0]);
        assert((first + second).drop_first() =~= first.drop_first() + second);
        match feed(control, builder, first[0]) {
            Some((next, built)) => {
                run_both(next, built, first.drop_first(), second);
            },
            None => {},
        }
    }
}

/// A builder that is in step with the automaton is in step with it after
/// any tokens that the automaton accepts.
pub proof fn run_keeps_step(control: Control, builder: BuilderView, tokens: Seq<TokenView>)
    requires
        in_step(control, builder),
    ensures
        run(control, builder, tokens) matches Some((next, built)) ==> in_step(next, built),
    decreases tokens.len(),
{
    if tokens.len() > 0 {
        builder_keeps_step(control, builder, Some(Ok(tokens[0])));
        match feed(control, builder, tokens[0]) {
            Some((next, built)) => {
                run_keeps_step(next, built, tokens.drop_first());
            },
            None => {},
        }
    }
}

/// Parsing tokens over which the automaton and the builder run is parsing
/// what follows them, from where the run got.
pub proof fn parsing_after_run(
    control: Control,
    builder: BuilderView,
    tokens: Seq<TokenView>,
    rest: Seq<TokenView>,
    fault: Option<TokenizeErrorView>,
)
    ensures
        run(control, builder, tokens) matches Some((next, built)) ==> parsing(
            control,
            builder,
            tokens + rest,
            fault,
        ) == parsing(next, built, rest, fault),
    decreases tokens.len(),
{
    if tokens.len() == 0 {
        assert(tokens + rest =~= rest);
    } else {
        let all = tokens + rest;
        assert(all[0] == tokens[0]);
        assert(all.drop_first() =~= tokens.drop_first() + rest);
        match feed(control, builder, tokens[0]) {
            Some((next, built)) => {
                parsing_after_run(next, built, tokens.drop_first(), rest, fault);
            },
            None => {},
        }
    }
}

/// The states in which a value may start.
pub open spec fn expects_value(state: State) -> bool {
    state == State::Begin || state == State::InArrayEmpty || state == State::InArrayLastWasDelim
        || state == State::InObjectLastWasNameDelim
}

/// What a value that starts in the given state stands in: an array, an
/// object, or nothing, as the whole document.
pub open spec fn context_of(state: State) -> Option<Stack> {
    if state == State::Begin {
        None
    } else if state == State::InObjectLastWasNameDelim {
        Some(Stack::Object)
    } else {
        Some(Stack::Array)
    }
}

/// Where a value may start, the tokens that write the value `value` are
/// accepted, and leave the automaton after a complete value and the builder
/// with `value` where it belongs.
pub proof fn run_value(control: Control, builder: BuilderView, value: ValueView)
    requires
        in_step(control, builder),
        expects_value(control.state),
    ensures
        control.completed(context_of(control.state)) is Some,
        builder.attach(value) is Some,
        run(control, builder, tokens_of(value)) == Some(
            (control.completed(context_of(control.state))->Some_0, builder.attach(value)->Some_0),
        ),
    decreases value, 1nat,
{
    let context = context_of(control.state);
    if control.stack.len() > 0 {
        assert(builder.stack.last().kind() == control.stack.last());
    }
    match value {
        ValueView::Array(items) => {
            let open = seq![TokenView::ArrayBegin];
            let close = seq![TokenView::ArrayEnd];
            let inside = items_tokens(items);
            run_one(control, builder, TokenView::ArrayBegin);
            builder_keeps_step(control, builder, Some(Ok(TokenView::ArrayBegin)));
            let (c1, b1) = feed(control, builder, TokenView::ArrayBegin)->Some_0;
            run_items(c1, b1, items);
            let (c2, b2) = run(c1, b1, inside)->Some_0;
            run_keeps_step(c1, b1, inside);
            run_one(c2, b2, TokenView::ArrayEnd);
            assert(b1.stack.drop_last() =~= builder.stack);
            assert(b2.stack.drop_last() =~= builder.stack);
            assert(c2.stack.drop_last() =~= control.stack);
            run_both(control, builder, open, inside);
            run_both(control, builder, open + inside, close);
        },
        ValueView::Object(members) => {
            let open = seq![TokenView::ObjectBegin];
            let close = seq![TokenView::ObjectEnd];
            let inside = members_tokens(members);
            run_one(control, builder, TokenView::ObjectBegin);
            builder_keeps_step(control, builder, Some(Ok(TokenView::ObjectBegin)));
            let (c1, b1) = feed(control, builder, TokenView::ObjectBegin)->Some_0;
            run_members(c1, b1, members);
            let (c2, b2) = run(c1, b1, inside)->Some_0;
            run_keeps_step(c1, b1, inside);
            run_one(c2, b2, TokenView::ObjectEnd);
            assert(b1.stack.drop_last() =~= builder.stack);
            assert(b2.stack.drop_last() =~= builder.stack);
            assert(c2.stack.drop_last() =~= control.stack);
            run_both(control, builder, open, inside);
            run_both(control, builder, open + inside, close);
        },
        ValueView::Number(n) => {
            run_one(control, builder, TokenView::Number(n));
        },
        ValueView::String(s) => {
            run_one(control, builder, TokenView::String(s));
        },
        ValueView::True => {
            run_one(control, builder, TokenView::True);
        },
        ValueView::False => {
            run_one(control, builder, TokenView::False);
        },
        ValueView::Null => {
            run_one(control, builder, TokenView::Null);
        },
    }
}

/// Right after the opening bracket of an array, the tokens that write the
/// items `items` are accepted, and leave the builder with the items in the
/// array.
pub proof fn run_items(control: Control, builder: BuilderView, items: Seq<ValueView>)
    requires
        in_step(control, builder),
        control.state == State::InArrayEmpty,
        builder.stack.len() > 0,
        builder.stack.last() == FrameView::Array(Seq::empty()),
    ensures
        run(control, builder, items_tokens(items)) == Some(
            (
                Control {
                    state: if items.len() == 0 {
                        State::InArrayEmpty
                    } else {
                        State::InArrayLastWasValue
                    },
                    ..control
                },
                BuilderView {
                    stack: builder.stack.drop_last().push(FrameView::Array(items)),
                    ..builder
                },
            ),
        ),
    decreases items, 0nat,
{
    if items.len() == 0 {
        assert(items =~= Seq::empty());
        assert(builder.stack.drop_last().push(FrameView::Array(items)) =~= builder.stack);
    } else if items.len() == 1 {
        run_value(control, builder, items[0]);
        assert(Seq::<ValueView>::empty().push(items[0]) =~= items);
    } else {
        let before = items.drop_last();
        let comma = seq![TokenView::ValueSeparator];
        run_items(control, builder, before);
        run_keeps_step(control, builder, items_tokens(before));
        let (c1, b1) = run(control, builder, items_tokens(before))->Some_0;
        run_one(c1, b1, TokenView::ValueSeparator);
        builder_keeps_step(c1, b1, Some(Ok(TokenView::ValueSeparator)));
        let (c2, b2) = feed(c1, b1, TokenView::ValueSeparator)->Some_0;
        run_value(c2, b2, items.last());
        assert(before.push(items.last()) =~= items);
        assert(b1.stack.drop_last() =~= builder.stack.drop_last());
        run_both(control, builder, items_tokens(before), comma);
        run_both(control, builder, items_tokens(before) + comma, tokens_of(items.last()));
    }
}

/// Right after the opening bracket of an object, the tokens that write the
/// members `members` are accepted, and leave the builder with the members
/// in the object.
pub proof fn run_members(
    control: Control,
    builder: BuilderView,
    members: Seq<(Seq<char>, ValueView)>,
)
    requires
        in_step(control, builder),
        control.state == State::InObjectEmpty,
        builder.stack.len() > 0,
        builder.stack.last() == FrameView::Object(Seq::empty()),
    ensures
        run(control, builder, members_tokens(members)) == Some(
            (
                Control {
                    state: if members.len() == 0 {
                        State::InObjectEmpty
                    } else {
                        State::InObjectLastWasValue
                    },
                    ..control
                },
                BuilderView {
                    stack: builder.stack.drop_last().push(FrameView::Object(members)),
                    ..builder
                },
            ),
        ),
    decreases members, 0nat,
{
    if members.len() == 0 {
        assert(members =~= Seq::empty());
        assert(builder.stack.drop_last().push(FrameView::Object(members)) =~= builder.stack);
    } else {
        let (name, value) = members.last();
        let before = members.drop_last();
        let lead = if members.len() == 1 {
            Seq::<TokenView>::empty()
        } else {
            members_tokens(before) + seq![TokenView::ValueSeparator]
        };
        let key = seq![TokenView::String(name), TokenView::NameSeparator];
        assert(members_tokens(members) =~= lead + key + tokens_of(value));
        // up to the comma
        let (c1, b1) = if members.len() == 1 {
            (control, builder)
        } else {
            run(control, builder, lead)->Some_0
        };
        if members.len() == 1 {
            assert(before =~= Seq::empty());
        } else {
            run_members(control, builder, before);
            run_keeps_step(control, builder, members_tokens(before));
            let (c0, b0) = run(control, builder, members_tokens(before))->Some_0;
            run_one(c0, b0, TokenView::ValueSeparator);
            builder_keeps_step(c0, b0, Some(Ok(TokenView::ValueSeparator)));
            run_both(control, builder, members_tokens(before), seq![TokenView::ValueSeparator]);
        }
        assert(run(control, builder, lead) == Some((c1, b1)));
        assert(in_step(c1, b1));
        assert(b1.stack =~= builder.stack.drop_last().push(FrameView::Object(before)));
        // the name and the colon
        builder_keeps_step(c1, b1, Some(Ok(TokenView::String(name))));
        let (c2, b2) = feed(c1, b1, TokenView::String(name))->Some_0;
        builder_keeps_step(c2, b2, Some(Ok(TokenView::NameSeparator)));
        let (c3, b3) = feed(c2, b2, TokenView::NameSeparator)->Some_0;
        run_one(c1, b1, TokenView::String(name));
        run_one(c2, b2, TokenView::NameSeparator);
        run_both(c1, b1, seq![TokenView::String(name)], seq![TokenView::NameSeparator]);
        assert(seq![TokenView::String(name)] + seq![TokenView::NameSeparator] =~= key);
        assert(run(c1, b1, key) == Some((c3, b3)));
        // the value
        run_value(c3, b3, value);
        assert(b3.keys.drop_last() =~= builder.keys);
        assert(before.push((name, value)) =~= members);
        assert(b3.stack.drop_last() =~= builder.stack.drop_last());
        run_both(control, builder, lead, key);
        run_both(control, builder, lead + key, tokens_of(value));
    }
}

/// Parsing the tokens that write a value yields that value: every JSON
/// text is accepted, and is understood as what it says.
pub proof fn parsing_what_was_written(value: ValueView)
    ensures
        parsing(Control::initial(), BuilderView::initial(), tokens_of(value), None) == Ok::<
            _,
            TokenizeErrorView,
        >(value),
{
    let control = Control::initial();
    let builder = BuilderView::initial();
    run_value(control, builder, value);
    parsing_after_run(control, builder, tokens_of(value), Seq::empty(), None);
    assert(tokens_of(value) + Seq::<TokenView>::empty() =~= tokens_of(value));
}

/// The tokens `tokens` without the white space among them.
pub open spec fn without_white_space(tokens: Seq<TokenView>) -> Seq<TokenView>
    decreases tokens.len(),
{
    if tokens.len() == 0 {
        Seq::empty()
    } else if tokens[0] is WhiteSpace {
        without_white_space(tokens.drop_first())
    } else {
        seq![tokens[0]] + without_white_space(tokens.drop_first())
    }
}

/// White space between tokens changes nothing of what parsing yields.
pub proof fn white_space_changes_nothing(
    control: Control,
    builder: BuilderView,
    tokens: Seq<TokenView>,
    fault: Option<TokenizeErrorView>,
)
    requires
        control.state != State::Ended,
    ensures
        parsing(control, builder, tokens, fault) == parsing(
            control,
            builder,
            without_white_space(tokens),
            fault,
        ),
    decreases tokens.len(),
{
    if tokens.len() > 0 {
        let rest = tokens.drop_first();
        if tokens[0] is WhiteSpace {
            white_space_changes_nothing(control, builder, rest, fault);
        } else {
            let plain = without_white_space(tokens);
            assert(plain[0] == tokens[0]);
            assert(plain.drop_first() =~= without_white_space(rest));
            match control.step(Some(Ok(tokens[0]))) {
                (next, Some(Ok(action))) => {
                    match builder.apply(action) {
                        Some(built) => {
                            white_space_changes_nothing(next, built, rest, fault);
                        },
                        None => {},
                    }
                },
                _ => {},
            }
        }
    }
}

/// A key is pending for the innermost open object.
pub open spec fn uses_key(state: State) -> bool {
    state == State::InObjectLastWasKey || state == State::InObjectLastWasNameDelim
}

/// The state in which a value starts inside an open array or object that
/// holds what `frame` holds.
pub open spec fn nested_state(frame: FrameView) -> State {
    match frame {
        FrameView::Array(items) => if items.len() == 0 {
            State::InArrayEmpty
        } else {
            State::InArrayLastWasDelim
        },
        FrameView::Object(_) => State::InObjectLastWasNameDelim,
    }
}

/// The state in which a value starts inside the innermost of the open
/// arrays and objects `stack`, or at the beginning if nothing is open.
pub open spec fn around_state(stack: Seq<FrameView>) -> State {
    if stack.len() == 0 {
        State::Begin
    } else {
        nested_state(stack.last())
    }
}

/// The state after a value that started in `state`.
pub open spec fn after_value(state: State) -> State {
    match context_of(state) {
        None => State::End,
        Some(Stack::Array) => State::InArrayLastWasValue,
        Some(Stack::Object) => State::InObjectLastWasValue,
    }
}

/// A comma, where one is due.
pub open spec fn comma_if(due: bool) -> Seq<TokenView> {
    if due {
        seq![TokenView::ValueSeparator]
    } else {
        Seq::empty()
    }
}

/// The tokens that were read of an open array or object that holds what
/// `frame` holds, when the automaton is in `state` inside it and `key` is
/// the pending key, if one is pending.
pub open spec fn frame_tokens(frame: FrameView, state: State, key: Seq<char>) -> Seq<TokenView> {
    match frame {
        FrameView::Array(items) => seq![TokenView::ArrayBegin] + items_tokens(items) + comma_if(
            state == State::InArrayLastWasDelim,
        ),
        FrameView::Object(members) => seq![TokenView::ObjectBegin] + members_tokens(members) + (
        if state == State::InObjectLastWasDelim {
            seq![TokenView::ValueSeparator]
        } else if state == State::InObjectLastWasKey {
            comma_if(members.len() > 0) + seq![TokenView::String(key)]
        } else if state == State::InObjectLastWasNameDelim {
            comma_if(members.len() > 0) + seq![TokenView::String(key), TokenView::NameSeparator]
        } else {
            Seq::empty()
        }),
    }
}

/// The tokens that were read of the open arrays and objects `stack`, when
/// the automaton is in `state` inside the innermost of them and `keys` are
/// the pending keys.
pub open spec fn open_tokens(stack: Seq<FrameView>, keys: Seq<Seq<char>>, state: State) -> Seq<
    TokenView,
>
    decreases stack.len(),
{
    if stack.len() == 0 {
        Seq::empty()
    } else {
        let below = stack.drop_last();
        open_tokens(
            below,
            if uses_key(state) {
                keys.drop_last()
            } else {
                keys
            },
            around_state(below),
        ) + frame_tokens(
            stack.last(),
            state,
            if uses_key(state) && keys.len() > 0 {
                keys.last()
            } else {
                Seq::empty()
            },
        )
    }
}

/// The tokens, white space apart, that were read when the automaton is in
/// `state` and the builder has built `builder`.
pub open spec fn written(state: State, builder: BuilderView) -> Seq<TokenView> {
    match state {
        State::Begin | State::Ended => Seq::empty(),
        State::End => match builder.value {
            Some(value) => tokens_of(value),
            None => Seq::empty(),
        },
        _ => open_tokens(builder.stack, builder.keys, state),
    }
}

/// The number of objects among the open arrays and objects.
pub open spec fn objects_in(stack: Seq<FrameView>) -> nat
    decreases stack.len(),
{
    if stack.len() == 0 {
        0
    } else {
        objects_in(stack.drop_last()) + if stack.last() is Object {
            1nat
        } else {
            0nat
        }
    }
}

/// What the innermost open array or object holds fits the state: it holds
/// nothing yet where the state says so, and something where the state says
/// that a value was read.
pub open spec fn top_fits(frame: FrameView, state: State) -> bool {
    match frame {
        FrameView::Array(items) => {
            ||| state == State::InArrayEmpty && items.len() == 0
            ||| state == State::InArrayLastWasValue && items.len() > 0
            ||| state == State::InArrayLastWasDelim && items.len() > 0
        },
        FrameView::Object(members) => {
            ||| state == State::InObjectEmpty && members.len() == 0
            ||| state == State::InObjectLastWasValue && members.len() > 0
            ||| state == State::InObjectLastWasDelim && members.len() > 0
            ||| state == State::InObjectLastWasKey
            ||| state == State::InObjectLastWasNameDelim
        },
    }
}

/// What the builder has built fits the state of the automaton.
pub open spec fn legible(state: State, builder: BuilderView) -> bool {
    match state {
        State::Begin => builder.stack.len() == 0 && builder.keys.len() == 0,
        State::End => builder.stack.len() == 0 && builder.keys.len() == 0
            && builder.value is Some,
        State::Ended => true,
        _ => {
            &&& builder.stack.len() > 0
            &&& top_fits(builder.stack.last(), state)
            &&& builder.keys.len() == objects_in(builder.stack.drop_last()) + if uses_key(state) {
                1nat
            } else {
                0nat
            }
        },
    }
}

/// One more item in an array is written after a comma, unless it is the
/// first.
pub proof fn items_tokens_push(items: Seq<ValueView>, value: ValueView)
    ensures
        items_tokens(items.push(value)) == items_tokens(items) + comma_if(items.len() > 0)
            + tokens_of(value),
{
    let longer = items.push(value);
    assert(longer.drop_last() =~= items);
    if items.len() == 0 {
        assert(items_tokens(items) + comma_if(false) + tokens_of(value) =~= tokens_of(value));
    }
}

/// One more member in an object is written after a comma, unless it is the
/// first.
pub proof fn members_tokens_push(
    members: Seq<(Seq<char>, ValueView)>,
    name: Seq<char>,
    value: ValueView,
)
    ensures
        members_tokens(members.push((name, value))) == members_tokens(members) + comma_if(
            members.len() > 0,
        ) + seq![TokenView::String(name), TokenView::NameSeparator] + tokens_of(value),
{
    let longer = members.push((name, value));
    let key = seq![TokenView::String(name), TokenView::NameSeparator];
    assert(longer.drop_last() =~= members);
    if members.len() == 0 {
        assert(members_tokens(members) + comma_if(false) + key + tokens_of(value) =~= key
            + tokens_of(value));
    } else {
        assert(members_tokens(members) + comma_if(true) + key + tokens_of(value)
            =~= members_tokens(members) + seq![
            TokenView::ValueSeparator,
            TokenView::String(name),
            TokenView::NameSeparator,
        ] + tokens_of(value));
    }
}

/// A complete value is written behind what was written before it.
pub proof fn attach_writes(state: State, builder: BuilderView, value: ValueView)
    requires
        legible(state, builder),
        expects_value(state),
    ensures
        builder.attach(value) is Some,
        legible(after_value(state), builder.attach(value)->Some_0),
        written(after_value(state), builder.attach(value)->Some_0) == written(state, builder)
            + tokens_of(value),
{
    let built = builder.attach(value)->Some_0;
    if state == State::Begin {
        assert(written(state, builder) + tokens_of(value) =~= tokens_of(value));
    } else {
        let below = builder.stack.drop_last();
        assert(built.stack.drop_last() =~= below);
        match builder.stack.last() {
            FrameView::Array(items) => {
                items_tokens_push(items, value);
                let outer = open_tokens(below, builder.keys, around_state(below));
                let open = seq![TokenView::ArrayBegin];
                assert(written(state, builder) == outer + (open + items_tokens(items) + comma_if(
                    items.len() > 0,
                )));
                assert(written(after_value(state), built) == outer + (open + items_tokens(
                    items.push(value),
                ) + comma_if(false)));
                assert(outer + (open + items_tokens(items) + comma_if(items.len() > 0))
                    + tokens_of(value) =~= outer + (open + (items_tokens(items) + comma_if(
                    items.len() > 0,
                ) + tokens_of(value)) + comma_if(false)));
            },
            FrameView::Object(members) => {
                let name = builder.keys.last();
                members_tokens_push(members, name, value);
                let outer = open_tokens(below, builder.keys.drop_last(), around_state(below));
                let open = seq![TokenView::ObjectBegin];
                let key = seq![TokenView::String(name), TokenView::NameSeparator];
                assert(written(state, builder) == outer + (open + members_tokens(members) + (
                comma_if(members.len() > 0) + key)));
                assert(written(after_value(state), built) == outer + (open + members_tokens(
                    members.push((name, value)),
                ) + Seq::empty()));
                assert(outer + (open + members_tokens(members) + (comma_if(members.len() > 0)
                    + key)) + tokens_of(value) =~= outer + (open + (members_tokens(members)
                    + comma_if(members.len() > 0) + key + tokens_of(value)) + Seq::empty()));
            },
        }
    }
}

/// The builder before the innermost open array or object was opened writes
/// what is written around that array or object.
pub proof fn around_is_legible(state: State, builder: BuilderView)
    requires
        legible(state, builder),
        state != State::Ended,
        builder.stack.len() > 0,
        !uses_key(state),
    ensures
        ({
            let below = builder.stack.drop_last();
            let before = BuilderView { stack: below, ..builder };
            &&& legible(around_state(below), before)
            &&& expects_value(around_state(below))
            &&& written(around_state(below), before) == open_tokens(
                below,
                builder.keys,
                around_state(below),
            )
        }),
{
    let below = builder.stack.drop_last();
    if below.len() > 0 {
        assert(objects_in(below) == objects_in(below.drop_last()) + if below.last() is Object {
            1nat
        } else {
            0nat
        });
    } else {
        assert(objects_in(below) == 0);
    }
}

/// Every token but white space that the automaton accepts is written
/// behind what was written before it.
pub proof fn feed_writes(control: Control, builder: BuilderView, token: TokenView)
    requires
        in_step(control, builder),
        legible(control.state, builder),
        !(token is WhiteSpace),
        feed(control, builder, token) is Some,
    ensures
        ({
            let (next, built) = feed(control, builder, token)->Some_0;
            &&& next.state != State::Ended
            &&& legible(next.state, built)
            &&& written(next.state, built) == written(control.state, builder).push(token)
        }),
{
    let (next, built) = feed(control, builder, token)->Some_0;
    let state = control.state;
    let before = written(state, builder);
    if control.stack.len() > 0 {
        assert(builder.stack.last().kind() == control.stack.last());
        if control.stack.len() > 1 {
            assert(builder.stack.drop_last().last() == builder.stack[control.stack.len() - 2]);
        }
    }
    let closes = (token is ArrayEnd && (state == State::InArrayEmpty || state
        == State::InArrayLastWasValue)) || (token is ObjectEnd && (state == State::InObjectEmpty
        || state == State::InObjectLastWasValue));
    if closes {
        let below = builder.stack.drop_last();
        let around = BuilderView { stack: below, ..builder };
        let value = builder.stack.last().closed();
        around_is_legible(state, builder);
        attach_writes(around_state(below), around, value);
        let outer = open_tokens(below, builder.keys, around_state(below));
        match builder.stack.last() {
            FrameView::Array(items) => {
                let open = seq![TokenView::ArrayBegin];
                assert(before == outer + (open + items_tokens(items) + comma_if(false)));
                assert((outer + (open + items_tokens(items) + comma_if(false))).push(token)
                    =~= outer + (open + items_tokens(items) + seq![TokenView::ArrayEnd]));
            },
            FrameView::Object(members) => {
                let open = seq![TokenView::ObjectBegin];
                assert(before == outer + (open + members_tokens(members) + Seq::empty()));
                assert((outer + (open + members_tokens(members) + Seq::empty())).push(token)
                    =~= outer + (open + members_tokens(members) + seq![TokenView::ObjectEnd]));
            },
        }
    } else if expects_value(state) {
        if token is ArrayBegin || token is ObjectBegin {
            let frame = built.stack.last();
            assert(built.stack.drop_last() =~= builder.stack);
            assert(items_tokens(Seq::empty()) =~= Seq::empty());
            assert(members_tokens(Seq::empty()) =~= Seq::empty());
            assert(frame_tokens(frame, next.state, Seq::empty()) =~= seq![token]);
            assert(around_state(builder.stack) == state);
            assert(before == open_tokens(builder.stack, builder.keys, state));
            assert(before.push(token) =~= before + seq![token]);
        } else {
            let value = crate::automaton::scalar_of(token)->Some_0;
            attach_writes(state, builder, value);
            assert(tokens_of(value) =~= seq![token]);
            assert(before.push(token) =~= before + seq![token]);
        }
    } else {
        let below = builder.stack.drop_last();
        assert(built.stack.drop_last() =~= below);
        let frame = builder.stack.last();
        if token is String {
            let name = token->String_0;
            assert(built.keys.drop_last() =~= builder.keys);
            let outer = open_tokens(below, builder.keys, around_state(below));
            let members = frame->Object_0;
            let open = seq![TokenView::ObjectBegin];
            assert(written(next.state, built) == outer + (open + members_tokens(members) + (
            comma_if(members.len() > 0) + seq![token])));
            if state == State::InObjectEmpty {
                assert(before == outer + (open + members_tokens(members) + Seq::empty()));
                assert((outer + (open + members_tokens(members) + Seq::empty())).push(token)
                    =~= outer + (open + members_tokens(members) + (comma_if(false) + seq![token])));
            } else {
                assert(before == outer + (open + members_tokens(members) + seq![
                    TokenView::ValueSeparator,
                ]));
                assert((outer + (open + members_tokens(members) + seq![
                    TokenView::ValueSeparator,
                ])).push(token) =~= outer + (open + members_tokens(members) + (comma_if(true)
                    + seq![token])));
            }
        } else if token is NameSeparator {
            let name = builder.keys.last();
            let outer = open_tokens(below, builder.keys.drop_last(), around_state(below));
            let members = frame->Object_0;
            let open = seq![TokenView::ObjectBegin];
            assert(before == outer + (open + members_tokens(members) + (comma_if(
                members.len() > 0,
            ) + seq![TokenView::String(name)])));
            assert(written(next.state, built) == outer + (open + members_tokens(members) + (
            comma_if(members.len() > 0) + seq![
                TokenView::String(name),
                TokenView::NameSeparator,
            ])));
            assert((outer + (open + members_tokens(members) + (comma_if(members.len() > 0)
                + seq![TokenView::String(name)]))).push(token) =~= outer + (open
                + members_tokens(members) + (comma_if(members.len() > 0) + seq![
                TokenView::String(name),
                TokenView::NameSeparator,
            ])));
        } else {
            let outer = open_tokens(below, builder.keys, around_state(below));
            match frame {
                FrameView::Array(items) => {
                    let open = seq![TokenView::ArrayBegin];
                    assert(before == outer + (open + items_tokens(items) + comma_if(false)));
                    assert(written(next.state, built) == outer + (open + items_tokens(items)
                        + comma_if(true)));
                    assert((outer + (open + items_tokens(items) + comma_if(false))).push(token)
                        =~= outer + (open + items_tokens(items) + comma_if(true)));
                },
                FrameView::Object(members) => {
                    let open = seq![TokenView::ObjectBegin];
                    assert(before == outer + (open + members_tokens(members) + Seq::empty()));
                    assert(written(next.state, built) == outer + (open + members_tokens(members)
                        + seq![TokenView::ValueSeparator]));
                    assert((outer + (open + members_tokens(members) + Seq::empty())).push(token)
                        =~= outer + (open + members_tokens(members) + seq![
                        TokenView::ValueSeparator,
                    ]));
                },
            }
        }
    }
}

/// What parsing accepts was written by the grammar: if parsing yields a
/// value, then the input holds no fault, and the tokens that were read
/// before and those that are still to come, white space apart, are the
/// tokens that write that value.
pub proof fn parsing_reads_what_was_written(
    control: Control,
    builder: BuilderView,
    tokens: Seq<TokenView>,
    fault: Option<TokenizeErrorView>,
    value: ValueView,
)
    requires
        in_step(control, builder),
        legible(control.state, builder),
        control.state != State::Ended,
        parsing(control, builder, tokens, fault) == Ok::<_, TokenizeErrorView>(value),
    ensures
        fault is None,
        written(control.state, builder) + without_white_space(tokens) == tokens_of(value),
    decreases tokens.len(),
{
    let before = written(control.state, builder);
    if tokens.len() == 0 {
        assert(before + without_white_space(tokens) =~= before);
    } else {
        let token = tokens[0];
        let rest = tokens.drop_first();
        builder_keeps_step(control, builder, Some(Ok(token)));
        let (next, built) = feed(control, builder, token)->Some_0;
        if token is WhiteSpace {
            parsing_reads_what_was_written(next, built, rest, fault, value);
        } else {
            feed_writes(control, builder, token);
            parsing_reads_what_was_written(next, built, rest, fault, value);
            assert(before + without_white_space(tokens) =~= before.push(token)
                + without_white_space(rest));
        }
    }
}

/// The parser accepts the grammar of JSON and nothing else: parsing yields
/// a value if and only if the input holds no fault and its tokens, white
/// space apart, are the tokens that write that value.
pub proof fn parsing_is_the_grammar(
    tokens: Seq<TokenView>,
    fault: Option<TokenizeErrorView>,
    value: ValueView,
)
    ensures
        parsing(Control::initial(), BuilderView::initial(), tokens, fault) == Ok::<
            _,
            TokenizeErrorView,
        >(value) <==> fault is None && without_white_space(tokens) == tokens_of(value),
{
    let control = Control::initial();
    let builder = BuilderView::initial();
    if parsing(control, builder, tokens, fault) == Ok::<_, TokenizeErrorView>(value) {
        parsing_reads_what_was_written(control, builder, tokens, fault, value);
        assert(written(control.state, builder) + without_white_space(tokens)
            =~= without_white_space(tokens));
    }
    if fault is None && without_white_space(tokens) == tokens_of(value) {
        white_space_changes_nothing(control, builder, tokens, fault);
        parsing_what_was_written(value);
    }
}

/// A text denotes a value: it is made of tokens from its start to its
/// end, and these, white space apart, are the tokens that write the value.
pub open spec fn denotes(text: Seq<char>, value: ValueView) -> bool {
    fault_from(text, 0) is None && without_white_space(tokens_from(text, 0)) == tokens_of(value)
}

/// Parsing yields a value if and only if the bytes are the UTF-8 encoding
/// of a text that denotes that value.
pub proof fn parse_is_the_grammar(bytes: Seq<u8>, value: ValueView)
    ensures
        parse_of(bytes) == Ok::<_, TokenizeErrorView>(value) <==> (decoded(bytes) matches Some(
            text,
        ) && denotes(text, value)),
{
    match decoded(bytes) {
        Some(text) => {
            parsing_is_the_grammar(tokens_from(text, 0), fault_from(text, 0), value);
        },
        None => {},
    }
}

/// Bytes are valid if and only if they are the UTF-8 encoding of a text
/// that denotes some value.
pub proof fn validate_is_the_grammar(bytes: Seq<u8>)
    ensures
        validate_of(bytes) is Ok <==> (decoded(bytes) matches Some(text) && exists|
            value: ValueView,
        |
            denotes(text, value)),
{
    validate_agrees_with_parse(bytes);
    match decoded(bytes) {
        Some(text) => {
            if parse_of(bytes) is Ok {
                let value = parse_of(bytes)->Ok_0;
                parse_is_the_grammar(bytes, value);
                assert(denotes(text, value));
            }
            if exists|value: ValueView| denotes(text, value) {
                let value = choose|value: ValueView| denotes(text, value);
                parse_is_the_grammar(bytes, value);
            }
        },
        None => {},
    }
}

} // verus!
