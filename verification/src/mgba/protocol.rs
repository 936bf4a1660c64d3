//! Messages in text form: a type and arguments, with commas between them and a marker at the end.
use crate::text::{ends_with, lemma_split_between, lemma_split_single, split};
use vstd::prelude::*;

verus! {

/// Ends each message.
pub const TERMINATION_MARKER: &'static str = "<|END|>";

/// Ends each answer of a command that succeeded.
pub const SUCCESS_MARKER: &'static str = "<|SUCCESS|>";

/// Ends each answer of a command that failed.
pub const ERROR_MARKER: &'static str = "<|ERROR|>";

/// Confirms a message.
pub const ACK_MESSAGE: &'static str = "<|ACK|>";

/// An argument of a message.
pub trait MessageArg {
    /// The argument as text.
    spec fn text(&self) -> Seq<char>;

    /// The argument as text.
    fn as_text(&self) -> (s: &str)
        ensures
            s@ == self.text(),
    ;
}

impl<'a> MessageArg for &'a str {
    open spec fn text(&self) -> Seq<char> {
        self@
    }

    fn as_text(&self) -> (s: &str) {
        *self
    }
}

impl MessageArg for String {
    open spec fn text(&self) -> Seq<char> {
        self@
    }

    fn as_text(&self) -> (s: &str) {
        self.as_str()
    }
}

/// The arguments as texts.
pub open spec fn texts<A: MessageArg>(args: Seq<A>) -> Seq<Seq<char>> {
    args.map_values(|a: A| a.text())
}

/// The arguments, each behind a comma.
pub open spec fn listed(args: Seq<Seq<char>>) -> Seq<char>
    decreases args.len(),
{
    if args.len() == 0 {
        Seq::empty()
    } else {
        listed(args.drop_last()).push(',') + args.last()
    }
}

/// A message.
pub open spec fn message(message_type: Seq<char>, args: Seq<Seq<char>>) -> Seq<char> {
    message_type + listed(args) + TERMINATION_MARKER@
}

/// Writes a message.
pub fn format_message<A: MessageArg>(message_type: &str, args: &[A]) -> (text: String)
    ensures
        text@ == message(message_type@, texts(args@)),
{
    let ghost all = texts(args@);
    let mut body = message_type.to_owned();
    let mut i: usize = 0;
    assert(all.take(0) =~= Seq::empty());
    assert(message_type@ + Seq::<char>::empty() =~= message_type@);
    while i < args.len()
        invariant
            i <= args@.len(),
            all == texts(args@),
            body@ == message_type@ + listed(all.take(i as int)),
        decreases args.len() - i,
    {
        body.push(',');
        body.append(args[i].as_text());
        i += 1;
        assert(all.take(i as int).drop_last() =~= all.take(i - 1));
        assert(all.take(i as int).last() == args@[i - 1].text());
        assert(body@ =~= message_type@ + listed(all.take(i as int)));
    }
    assert(all.take(i as int) =~= all);
    body.append(TERMINATION_MARKER);
    body
}

proof fn lemma_fields(message_type: Seq<char>, args: Seq<Seq<char>>)
    requires
        !message_type.contains(','),
    ensures
        ({
            let fields = split(message_type + listed(args), ',');
            &&& fields.len() >= args.len() + 1
            &&& fields[0] == message_type
            &&& fields.len() == args.len() + 1 ==> forall|i: int|
                0 <= i < args.len() ==> fields[i + 1] == #[trigger] args[i]
            &&& (forall|i: int| 0 <= i < args.len() ==> !(#[trigger] args[i]).contains(','))
                ==> fields.len() == args.len() + 1
        }),
    decreases args.len(),
{
    let fields = split(message_type + listed(args), ',');
    if args.len() == 0 {
        assert(message_type + listed(args) =~= message_type);
        lemma_split_single(message_type, ',');
    } else {
        let before = args.drop_last();
        let last = args.last();
        lemma_fields(message_type, before);
        let head = message_type + listed(before);
        assert(message_type + listed(args) =~= head.push(',') + last);
        lemma_split_between(head, last, ',');
        lemma_split_single(last, ',');
        if forall|i: int| 0 <= i < args.len() ==> !(#[trigger] args[i]).contains(',') {
            assert(!args[args.len() - 1].contains(','));
            assert forall|i: int| 0 <= i < before.len() implies !(#[trigger] before[i]).contains(
                ',',
            ) by {
                assert(before[i] == args[i]);
            }
        }
        if fields.len() == args.len() + 1 {
            assert(split(last, ',') == seq![last]);
            let first = split(head, ',');
            assert(fields == first + seq![last]);
            assert forall|i: int| 0 <= i < args.len() implies fields[i + 1]
                == #[trigger] args[i] by {
                if i < before.len() {
                    assert(before[i] == args[i]);
                    assert(first[i + 1] == before[i]);
                }
            }
        }
    }
}

/// A message never has fewer fields than its type and its arguments. It has as many just where no
/// argument holds a comma, and each field is then the argument itself: none can pass for two.
pub proof fn law_arguments_stay_apart(message_type: Seq<char>, args: Seq<Seq<char>>)
    requires
        !message_type.contains(','),
    ensures
        ({
            let text = message(message_type, args);
            let fields = split(text.take(text.len() - TERMINATION_MARKER@.len()), ',');
            &&& ends_with(text, TERMINATION_MARKER@)
            &&& fields.len() >= args.len() + 1
            &&& fields[0] == message_type
            &&& fields.len() == args.len() + 1 ==> forall|i: int|
                0 <= i < args.len() ==> fields[i + 1] == #[trigger] args[i]
            &&& (forall|i: int| 0 <= i < args.len() ==> !(#[trigger] args[i]).contains(','))
                ==> fields.len() == args.len() + 1
        }),
{
    let text = message(message_type, args);
    let body = message_type + listed(args);
    assert(text.take(text.len() - TERMINATION_MARKER@.len()) =~= body);
    assert(text.skip(text.len() - TERMINATION_MARKER@.len()) =~= TERMINATION_MARKER@);
    lemma_fields(message_type, args);
}

/// A message is its type and its arguments, each behind a comma, and then the mark of its end.
pub proof fn law_message_in_characters(message_type: Seq<char>, a: Seq<char>, b: Seq<char>)
    ensures
        message(message_type, Seq::empty()) == message_type + "<|END|>"@,
        message(message_type, seq![a]) == message_type + seq![','] + a + "<|END|>"@,
        message(message_type, seq![a, b]) == message_type + seq![','] + a + seq![','] + b
            + "<|END|>"@,
{
    reveal_with_fuel(listed, 3);
    assert(seq![a].drop_last() =~= Seq::empty());
    assert(seq![a, b].drop_last() =~= seq![a]);
    assert(message(message_type, Seq::empty()) =~= message_type + "<|END|>"@);
    assert(message(message_type, seq![a]) =~= message_type + seq![','] + a + "<|END|>"@);
    assert(message(message_type, seq![a, b]) =~= message_type + seq![','] + a + seq![','] + b
        + "<|END|>"@);
}

} // verus!
