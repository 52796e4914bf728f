//! The conversation log: an append-only sequence of messages.

use vstd::prelude::*;
use vstd::string::*;

verus! {

/// Who wrote a message.
#[derive(Clone, Copy, Debug, PartialEq, Eq, Structural)]
pub enum Role {
    Human,
    AI,
}

/// What a message holds, as mathematical values.
pub struct MessageView {
    pub role: Role,
    pub text: Seq<char>,
}

/// One entry of a conversation.
#[derive(Clone, Debug)]
pub struct Message {
    pub role: Role,
    pub text: String,
}

impl View for Message {
    type V = MessageView;

    open spec fn view(&self) -> MessageView {
        MessageView { role: self.role, text: self.text@ }
    }
}

impl Message {
    /// A message of the user.
    pub fn human(text: &str) -> (m: Message)
        ensures
            m@ == (MessageView { role: Role::Human, text: text@ }),
    {
        Message { role: Role::Human, text: String::from_str(text) }
    }

    /// A message of the model.
    pub fn ai(text: &str) -> (m: Message)
        ensures
            m@ == (MessageView { role: Role::AI, text: text@ }),
    {
        Message { role: Role::AI, text: String::from_str(text) }
    }

    /// A copy that holds the same values.
    pub fn duplicate(&self) -> (copy: Message)
        ensures
            copy@ == self@,
    {
        Message { role: self.role, text: self.text.clone() }
    }
}

/// The views of a sequence of messages.
pub open spec fn message_views(messages: Seq<Message>) -> Seq<MessageView> {
    messages.map_values(|m: Message| m@)
}

/// Copies a sequence of messages, whole and in order.
pub fn copy_messages(messages: &Vec<Message>) -> (copy: Vec<Message>)
    ensures
        message_views(copy@) == message_views(messages@),
{
    let mut copy: Vec<Message> = Vec::new();
    let mut i: usize = 0;
    while i < messages.len()
        invariant
            i <= messages.len(),
            copy@.len() == i,
            forall|j: int| 0 <= j < i ==> (#[trigger] copy@[j])@ == messages@[j]@,
        decreases messages.len() - i,
    {
        copy.push(messages[i].duplicate());
        i += 1;
    }
    proof {
        assert(message_views(copy@) =~= message_views(messages@));
    }
    copy
}

/// The history of one conversation. Messages are only ever added at the end,
/// one whole message at a time; exclusive access for the length of one call is
/// all that a caller who shares the state between requests has to provide.
#[derive(Debug)]
pub struct SessionState {
    history: Vec<Message>,
}

impl View for SessionState {
    type V = Seq<MessageView>;

    closed spec fn view(&self) -> Seq<MessageView> {
        message_views(self.history@)
    }
}

impl SessionState {
    /// An empty conversation.
    pub fn new() -> (session: SessionState)
        ensures
            session@ == Seq::<MessageView>::empty(),
    {
        let session = SessionState { history: Vec::new() };
        proof {
            assert(session@ =~= Seq::<MessageView>::empty());
        }
        session
    }

    /// Adds one message of the user at the end.
    pub fn append_human(&mut self, text: &str)
        ensures
            final(self)@ == old(self)@.push(MessageView { role: Role::Human, text: text@ }),
            old(self)@.is_prefix_of(final(self)@),
    {
        let message: Message = Message::human(text);
        self.history.push(message);
        proof {
            assert(message_views(self.history@) =~= message_views(old(self).history@).push(
                message@,
            ));
        }
    }

    /// Adds one message of the model at the end.
    pub fn append_ai(&mut self, text: &str)
        ensures
            final(self)@ == old(self)@.push(MessageView { role: Role::AI, text: text@ }),
            old(self)@.is_prefix_of(final(self)@),
    {
        let message: Message = Message::ai(text);
        self.history.push(message);
        proof {
            assert(message_views(self.history@) =~= message_views(old(self).history@).push(
                message@,
            ));
        }
    }

    /// A copy of the history as it stands now; later appends do not touch it.
    pub fn snapshot(&self) -> (copy: Vec<Message>)
        ensures
            message_views(copy@) == self@,
    {
        copy_messages(&self.history)
    }

    /// The number of messages.
    pub fn len(&self) -> (n: usize)
        ensures
            n == self@.len(),
    {
        self.history.len()
    }
}

} // verus!
