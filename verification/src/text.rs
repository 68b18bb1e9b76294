use crate::action::{Action, ActionView, Timestamp};
use crate::event::events::{events_view, lemma_event_view, Event, EventView, Operation};
use crate::translator::type_constraints::TypeConstraints;
use crate::translator::words::{sequence_view, Word, WordView};
use crate::variable::types::VariableType;
use crate::variable::values::{
    lemma_vec_view, variables_view, Direction, Effect, ValueView, VariableValue, VariableView,
};
use crate::variable::{Variable, VariableLocation};
use vstd::prelude::*;
use vstd::string::*;

verus! {

/// The character of a digit.
pub open spec fn digit(d: nat) -> char {
    if d == 0 {
        '0'
    } else if d == 1 {
        '1'
    } else if d == 2 {
        '2'
    } else if d == 3 {
        '3'
    } else if d == 4 {
        '4'
    } else if d == 5 {
        '5'
    } else if d == 6 {
        '6'
    } else if d == 7 {
        '7'
    } else if d == 8 {
        '8'
    } else {
        '9'
    }
}

/// A number in decimal notation.
pub open spec fn decimal(n: nat) -> Seq<char>
    decreases n,
{
    if n < 10 {
        seq![digit(n)]
    } else {
        decimal(n / 10).push(digit(n % 10))
    }
}

/// A number with its sign in decimal notation.
pub open spec fn signed_decimal(i: int) -> Seq<char> {
    if i < 0 {
        seq!['-'] + decimal((-i) as nat)
    } else {
        decimal(i as nat)
    }
}

/// The text of a digit.
fn digit_str(d: usize) -> (r: &'static str)
    requires
        d < 10,
    ensures
        r@ == seq![digit(d as nat)],
{
    proof {
        reveal_strlit("0");
        reveal_strlit("1");
        reveal_strlit("2");
        reveal_strlit("3");
        reveal_strlit("4");
        reveal_strlit("5");
        reveal_strlit("6");
        reveal_strlit("7");
        reveal_strlit("8");
        reveal_strlit("9");
    }
    let r = if d == 0 {
        "0"
    } else if d == 1 {
        "1"
    } else if d == 2 {
        "2"
    } else if d == 3 {
        "3"
    } else if d == 4 {
        "4"
    } else if d == 5 {
        "5"
    } else if d == 6 {
        "6"
    } else if d == 7 {
        "7"
    } else if d == 8 {
        "8"
    } else {
        "9"
    };
    assert(r@ =~= seq![digit(d as nat)]);
    r
}

/// A number in decimal notation.
pub fn number_text(n: usize) -> (r: String)
    ensures
        r@ == decimal(n as nat),
    decreases n,
{
    if n < 10 {
        digit_str(n).to_owned()
    } else {
        let mut s = number_text(n / 10);
        s.append(digit_str(n % 10));
        assert(s@ =~= decimal((n / 10) as nat).push(digit((n % 10) as nat)));
        s
    }
}

/// A number with its sign in decimal notation.
pub fn signed_text(i: i32) -> (r: String)
    ensures
        r@ == signed_decimal(i as int),
{
    if i < 0 {
        proof {
            reveal_strlit("-");
        }
        let mut s = "-".to_owned();
        let m = crate::event::arithmetic::magnitude(i);
        s.append(number_text(m).as_str());
        assert(s@ =~= seq!['-'] + decimal((-(i as int)) as nat));
        s
    } else {
        number_text(i as usize)
    }
}

/// The name of a type as it is written out.
pub open spec fn type_text(t: VariableType) -> Seq<char>
    decreases t,
{
    match t {
        VariableType::Int => "Int"@,
        VariableType::Pos => "Pos"@,
        VariableType::Color => "Color"@,
        VariableType::String => "String"@,
        VariableType::Effect => "Effect"@,
        VariableType::Direction => "Direction"@,
        VariableType::Vec(x) => "Vec("@ + type_text(*x) + ")"@,
        VariableType::Any(b) => "Any("@ + decimal(b as nat) + ")"@,
        VariableType::Component(c) => "Component("@ + decimal(c as nat) + ")"@,
        VariableType::Unresolved => "None"@,
    }
}

/// `open` + `inner` + `close`.
fn wrapped(open: &str, inner: &str, close: &str) -> (r: String)
    ensures
        r@ == open@ + inner@ + close@,
{
    let mut s = open.to_owned();
    s.append(inner);
    s.append(close);
    s
}

impl VariableType {
    /// The name of the type as it is written out: `Int`, `Vec(Pos)`,
    /// `Any(3)`, and `None` for a type that could not be resolved.
    pub fn to_string(&self) -> (r: String)
        ensures
            r@ == type_text(*self),
        decreases *self,
    {
        match self {
            VariableType::Int => "Int".to_owned(),
            VariableType::Pos => "Pos".to_owned(),
            VariableType::Color => "Color".to_owned(),
            VariableType::String => "String".to_owned(),
            VariableType::Effect => "Effect".to_owned(),
            VariableType::Direction => "Direction".to_owned(),
            VariableType::Vec(x) => wrapped("Vec(", x.to_string().as_str(), ")"),
            VariableType::Any(b) => wrapped("Any(", number_text(*b).as_str(), ")"),
            VariableType::Component(c) => wrapped("Component(", number_text(*c).as_str(), ")"),
            VariableType::Unresolved => "None".to_owned(),
        }
    }
}

/// A word as it is written out: a keyword as it is, a type by its name.
pub open spec fn word_text(w: WordView) -> Seq<char> {
    match w {
        WordView::Keyword(k) => k,
        WordView::Type(t) => type_text(t),
    }
}

impl Word {
    /// The word as it is written out.
    pub fn to_string(&self) -> (r: String)
        ensures
            r@ == word_text(self@),
    {
        match self {
            Word::Keyword(k) => k.clone(),
            Word::Type(t) => t.to_string(),
        }
    }
}

/// The first `n` words of a sequence, each behind a blank.
pub open spec fn words_text(seq: Seq<WordView>, n: nat) -> Seq<char>
    decreases n,
{
    if n == 0 {
        Seq::empty()
    } else {
        words_text(seq, (n - 1) as nat) + " "@ + word_text(seq[n - 1])
    }
}

/// A sequence as it is written out: `[ move Pos Direction by Int ]`.
pub open spec fn sequence_text(seq: Seq<WordView>) -> Seq<char> {
    "["@ + words_text(seq, seq.len()) + " ]"@
}

/// A sequence as it is written out.
pub fn seq_to_str(seq: &Vec<Word>) -> (r: String)
    ensures
        r@ == sequence_text(sequence_view(seq@)),
{
    let ghost words = sequence_view(seq@);
    let mut ret = "[".to_owned();
    let mut i: usize = 0;
    assert(ret@ =~= "["@ + words_text(words, 0));
    while i < seq.len()
        invariant
            i <= seq.len(),
            words == sequence_view(seq@),
            ret@ == "["@ + words_text(words, i as nat),
        decreases seq.len() - i,
    {
        let ghost before = ret@;
        ret.append(" ");
        ret.append(seq[i].to_string().as_str());
        assert(words[i as int] == seq@[i as int]@);
        assert(ret@ =~= "["@ + words_text(words, (i + 1) as nat));
        i += 1;
    }
    ret.append(" ]");
    ret
}

/// A direction as it is written out.
pub open spec fn direction_text(d: Direction) -> Seq<char> {
    match d {
        Direction::Left => "left"@,
        Direction::Right => "right"@,
        Direction::Up => "up"@,
        Direction::Down => "down"@,
    }
}

/// An effect as it is written out.
pub open spec fn effect_text(e: Effect) -> Seq<char> {
    match e {
        Effect::Blur => "blur"@,
        Effect::Random => "random"@,
        Effect::Inverse => "inverse"@,
    }
}

impl Direction {
    pub fn to_string(&self) -> (r: String)
        ensures
            r@ == direction_text(*self),
    {
        match self {
            Direction::Left => "left".to_owned(),
            Direction::Right => "right".to_owned(),
            Direction::Up => "up".to_owned(),
            Direction::Down => "down".to_owned(),
        }
    }
}

impl Effect {
    pub fn to_string(&self) -> (r: String)
        ensures
            r@ == effect_text(*self),
    {
        match self {
            Effect::Blur => "blur".to_owned(),
            Effect::Random => "random".to_owned(),
            Effect::Inverse => "inverse".to_owned(),
        }
    }
}

/// A value as it is written out: `5`, `(1,2)`, `"text"`, `{255,0,0}`,
/// `left`, `component(3)`, `[1,2]`.
pub open spec fn value_text(v: ValueView) -> Seq<char>
    decreases v, 0nat,
{
    match v {
        ValueView::Int(i) => signed_decimal(i as int),
        ValueView::Pos(x, y) => "("@ + decimal(x as nat) + ","@ + decimal(y as nat) + ")"@,
        ValueView::String(s) => "\""@ + s + "\""@,
        ValueView::Color(p) => "{"@ + decimal(p.r as nat) + ","@ + decimal(p.g as nat) + ","@
            + decimal(p.b as nat) + "}"@,
        ValueView::Effect(e) => effect_text(e),
        ValueView::Direction(d) => direction_text(d),
        ValueView::Component(i) => "component("@ + decimal(i as nat) + ")"@,
        ValueView::Vec(l) => "["@ + variables_text(l, l.len()) + "]"@,
        ValueView::Any(i) => "Any("@ + decimal(i as nat) + ")"@,
    }
}

/// The first `n` variables as they are written out, with commas between
/// them.
pub open spec fn variables_text(l: Seq<VariableView>, n: nat) -> Seq<char>
    decreases l, n,
{
    if n == 0 || n > l.len() {
        Seq::empty()
    } else if n == 1 {
        variable_text(l[0])
    } else {
        variables_text(l, (n - 1) as nat) + ","@ + variable_text(l[n - 1])
    }
}

/// A variable as it is written out: a variable of the scope by its name, a
/// literal by its value, a component as `component`.
pub open spec fn variable_text(x: VariableView) -> Seq<char>
    decreases x, 0nat,
{
    match x.location {
        VariableLocation::Scope => x.name,
        VariableLocation::Static => match x.val {
            Some(v) => value_text(v),
            None => Seq::empty(),
        },
        VariableLocation::Component => "component"@,
    }
}

/// The variables as they are written out, with commas between them.
pub fn variables_to_string(l: &Vec<Variable>) -> (r: String)
    ensures
        r@ == variables_text(variables_view(l@), l@.len()),
    decreases l,
{
    let ghost views = variables_view(l@);
    let mut s = String::new();
    let mut i: usize = 0;
    assert(s@ =~= variables_text(views, 0));
    while i < l.len()
        invariant
            i <= l.len(),
            views == variables_view(l@),
            s@ == variables_text(views, i as nat),
        decreases l.len() - i,
    {
        if i > 0 {
            s.append(",");
        }
        proof {
            vstd::std_specs::vec::axiom_vec_index_decreases(*l, i as int);
            assert(views[i as int] == l@[i as int]@);
        }
        let item = l[i].to_string();
        s.append(item.as_str());
        assert(s@ =~= variables_text(views, (i + 1) as nat));
        i += 1;
    }
    s
}

impl VariableValue {
    /// The value as it is written out; see `value_text`.
    pub fn to_string(&self) -> (r: String)
        ensures
            r@ == value_text(self@),
        decreases *self, 1nat,
    {
        match self {
            VariableValue::Int(i) => signed_text(*i),
            VariableValue::Pos(x, y) => {
                let mut s = "(".to_owned();
                s.append(number_text(*x).as_str());
                s.append(",");
                s.append(number_text(*y).as_str());
                s.append(")");
                s
            },
            VariableValue::String(text) => wrapped("\"", text.as_str(), "\""),
            VariableValue::Color(p) => {
                let mut s = "{".to_owned();
                s.append(number_text(p.r as usize).as_str());
                s.append(",");
                s.append(number_text(p.g as usize).as_str());
                s.append(",");
                s.append(number_text(p.b as usize).as_str());
                s.append("}");
                s
            },
            VariableValue::Effect(e) => e.to_string(),
            VariableValue::Direction(d) => d.to_string(),
            VariableValue::Component(i) => wrapped("component(", number_text(*i).as_str(), ")"),
            VariableValue::Vec(v) => {
                proof {
                    lemma_vec_view(*v);
                    assert((*self)->Vec_0 == *v);
                    assert(decreases_to!(*self => (*self)->Vec_0));
                }
                wrapped("[", variables_to_string(v).as_str(), "]")
            },
            VariableValue::Any(i) => wrapped("Any(", number_text(*i).as_str(), ")"),
        }
    }
}

impl Variable {
    /// The variable as it is written out; see `variable_text`.
    pub fn to_string(&self) -> (r: String)
        ensures
            r@ == variable_text(self@),
        decreases *self, 2nat,
    {
        match self.location {
            VariableLocation::Scope => self.name.clone(),
            VariableLocation::Static => match &self.val {
                Some(v) => v.to_string(),
                None => String::new(),
            },
            VariableLocation::Component => "component".to_owned(),
        }
    }
}

/// `n` blanks.
pub open spec fn blanks(n: nat) -> Seq<char>
    decreases n,
{
    if n == 0 {
        Seq::empty()
    } else {
        blanks((n - 1) as nat) + " "@
    }
}

/// `n` blanks.
fn blanks_text(n: usize) -> (r: String)
    ensures
        r@ == blanks(n as nat),
{
    let mut s = String::new();
    let mut i: usize = 0;
    while i < n
        invariant
            i <= n,
            s@ == blanks(i as nat),
        decreases n - i,
    {
        s.append(" ");
        i += 1;
    }
    s
}

/// What an event is indented by: `indent` blanks, and one at least.
pub open spec fn margin(indent: nat) -> Seq<char> {
    if indent == 0 {
        " "@
    } else {
        blanks(indent)
    }
}

/// The indent that is used for an indent that is asked for: the largest
/// indent that leaves room for two more, if the one asked for leaves none.
pub open spec fn usable_indent(indent: nat) -> nat {
    if indent <= usize::MAX - 2 {
        indent
    } else {
        (usize::MAX - 2) as nat
    }
}

/// An event as it is written out, its events below it, each on a line of
/// its own behind a margin of `indent` blanks and indented by two more:
/// `event 9 with params (1,$x)`.
pub open spec fn event_text(e: EventView, indent: nat) -> Seq<char>
    decreases e, 0nat,
{
    "event "@ + decimal(e.id as nat) + " with params ("@ + variables_text(
        e.params,
        e.params.len(),
    ) + ")"@ + (if e.events.len() == 0 {
        Seq::empty()
    } else {
        ":\n"@ + margin(usable_indent(indent)) + body_text(
            e.events,
            usable_indent(indent),
            e.events.len(),
        )
    })
}

/// The first `n` events as they are written out, each indented by two more
/// than `indent`, with a line break and the margin between them.
pub open spec fn body_text(events: Seq<EventView>, indent: nat, n: nat) -> Seq<char>
    decreases events, n,
{
    if n == 0 || n > events.len() {
        Seq::empty()
    } else if n == 1 {
        event_text(events[0], indent + 2)
    } else {
        body_text(events, indent, (n - 1) as nat) + "\n"@ + margin(indent) + event_text(
            events[n - 1],
            indent + 2,
        )
    }
}

/// The events as they are written out below their event.
fn body_to_string(events: &Vec<Event>, indent: usize, ind_str: &str) -> (r: String)
    requires
        indent <= usize::MAX - 2,
        ind_str@ == margin(indent as nat),
    ensures
        r@ == body_text(events_view(events@), indent as nat, events@.len()),
    decreases events,
{
    let ghost views = events_view(events@);
    let mut s = String::new();
    let mut i: usize = 0;
    assert(s@ =~= body_text(views, indent as nat, 0));
    while i < events.len()
        invariant
            i <= events.len(),
            indent <= usize::MAX - 2,
            ind_str@ == margin(indent as nat),
            views == events_view(events@),
            s@ == body_text(views, indent as nat, i as nat),
        decreases events.len() - i,
    {
        if i > 0 {
            s.append("\n");
            s.append(ind_str);
        }
        proof {
            vstd::std_specs::vec::axiom_vec_index_decreases(*events, i as int);
            assert(views[i as int] == events@[i as int]@);
        }
        let item = events[i].to_string_with_indent(indent + 2);
        s.append(item.as_str());
        assert(s@ =~= body_text(views, indent as nat, (i + 1) as nat));
        i += 1;
    }
    s
}

impl Event {
    /// The event as it is written out; see `event_text`.
    pub fn to_string_with_indent(&self, indent: usize) -> (r: String)
        ensures
            r@ == event_text(self@, indent as nat),
        decreases *self, 1nat,
    {
        let ghost asked = indent;
        let indent = if indent <= usize::MAX - 2 {
            indent
        } else {
            usize::MAX - 2
        };
        let ind_str = if indent == 0 {
            " ".to_owned()
        } else {
            blanks_text(indent)
        };
        let mut s = "event ".to_owned();
        s.append(number_text(self.id).as_str());
        s.append(" with params (");
        s.append(variables_to_string(&self.params).as_str());
        s.append(")");
        proof {
            lemma_event_view(*self);
        }
        if self.events.len() > 0 {
            s.append(":\n");
            s.append(ind_str.as_str());
            s.append(body_to_string(&self.events, indent, ind_str.as_str()).as_str());
        }
        assert(s@ =~= event_text(self@, asked as nat));
        s
    }

    /// The event as it is written out, without a margin.
    pub fn to_string(&self) -> (r: String)
        ensures
            r@ == event_text(self@, 0),
    {
        self.to_string_with_indent(0)
    }
}

/// A timestamp of a trigger as it is written out: `3 frames`, `250 ms`.
pub open spec fn timestamp_text(t: Timestamp) -> Seq<char> {
    match t {
        Timestamp::Frame(x) => decimal(x as nat) + " frames"@,
        Timestamp::Millis(x) => decimal(x as nat) + " ms"@,
    }
}

/// The first `n` events of an action as they are written out, each
/// indented by four blanks, with a line break and two blanks between them.
pub open spec fn listing_text(events: Seq<EventView>, n: nat) -> Seq<char>
    decreases n,
{
    if n == 0 || n > events.len() {
        Seq::empty()
    } else if n == 1 {
        event_text(events[0], 4)
    } else {
        listing_text(events, (n - 1) as nat) + "\n  "@ + event_text(events[n - 1], 4)
    }
}

/// An action as it is written out: `every 3 frames do {` with its events
/// below, and a closing brace.
pub open spec fn action_text(a: ActionView) -> Seq<char> {
    (if a.onetime {
        "at"@
    } else {
        "every"@
    }) + " "@ + timestamp_text(a.to_activate) + " do {\n  "@ + listing_text(
        a.events,
        a.events.len(),
    ) + "\n}"@
}

impl Action {
    /// The action as it is written out; see `action_text`.
    pub fn to_string(&self) -> (r: String)
        ensures
            r@ == action_text(self@),
    {
        let mut s = if self.is_onetime() {
            "at".to_owned()
        } else {
            "every".to_owned()
        };
        s.append(" ");
        match self.get_target() {
            Timestamp::Frame(x) => {
                s.append(number_text(x).as_str());
                s.append(" frames");
            },
            Timestamp::Millis(x) => {
                s.append(number_text(x).as_str());
                s.append(" ms");
            },
        }
        s.append(" do {\n  ");
        let events = self.get_events();
        let ghost views = events_view(events@);
        let ghost head = s@;
        let mut i: usize = 0;
        assert(s@ =~= head + listing_text(views, 0));
        while i < events.len()
            invariant
                i <= events.len(),
                views == events_view(events@),
                s@ == head + listing_text(views, i as nat),
            decreases events.len() - i,
        {
            if i > 0 {
                s.append("\n  ");
            }
            assert(views[i as int] == events@[i as int]@);
            s.append(events[i].to_string_with_indent(4).as_str());
            assert(s@ =~= head + listing_text(views, (i + 1) as nat));
            i += 1;
        }
        s.append("\n}");
        assert(s@ =~= action_text(self@));
        s
    }
}

/// The first `n` types as they are written out, with blanks between them.
pub open spec fn types_text(types: Seq<VariableType>, n: nat) -> Seq<char>
    decreases n,
{
    if n == 0 || n > types.len() {
        Seq::empty()
    } else if n == 1 {
        type_text(types[0])
    } else {
        types_text(types, (n - 1) as nat) + " "@ + type_text(types[n - 1])
    }
}

impl TypeConstraints {
    /// The constraints as they are written out: `[Int Vec(Any(0))]`.
    pub fn to_string(&self) -> (r: String)
        ensures
            r@ == "["@ + types_text(self@, self@.len()) + "]"@,
    {
        let types = self.get_types();
        let mut s = "[".to_owned();
        let mut i: usize = 0;
        assert(s@ =~= "["@ + types_text(self@, 0));
        while i < types.len()
            invariant
                i <= types.len(),
                types@ == self@,
                s@ == "["@ + types_text(self@, i as nat),
            decreases types.len() - i,
        {
            if i > 0 {
                s.append(" ");
            }
            s.append(types[i].to_string().as_str());
            assert(s@ =~= "["@ + types_text(self@, (i + 1) as nat));
            i += 1;
        }
        s.append("]");
        s
    }
}

impl Operation {
    /// The name under which the operand `param_index`, which must be one of
    /// the operands, is iterated over: its name with `!` behind it.
    pub fn get_iterated_param_name(&self, param_index: usize) -> (r: String)
        requires
            param_index < self@.operands.len(),
        ensures
            r@ == self@.operands[param_index as int] + "!"@,
    {
        let mut s = self.operands[param_index].clone();
        assert(self@.operands[param_index as int] == self.operands@[param_index as int]@);
        s.append("!");
        s
    }
}

} // verus!
