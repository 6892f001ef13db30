//! The data model shared by probe and hub: chat messages, the frames that
//! travel over the control stream, and the transport error kinds.
use vstd::prelude::*;

verus! {

/// One entry of a chat history. System and developer messages form the pinned
/// preamble; tool messages carry a JSON blob with the recognized fields
/// `tool`, `arguments` and `result`.
#[derive(Debug)]
pub enum Message {
    System(String),
    Developer(String),
    User(String),
    Reasoning(String),
    Tool(String),
    Assistant(String),
}

/// Mathematical view of a message.
pub enum MessageV {
    System(Seq<char>),
    Developer(Seq<char>),
    User(Seq<char>),
    Reasoning(Seq<char>),
    Tool(Seq<char>),
    Assistant(Seq<char>),
}

impl View for Message {
    type V = MessageV;

    open spec fn view(&self) -> MessageV {
        match self {
            Message::System(s) => MessageV::System(s@),
            Message::Developer(s) => MessageV::Developer(s@),
            Message::User(s) => MessageV::User(s@),
            Message::Reasoning(s) => MessageV::Reasoning(s@),
            Message::Tool(s) => MessageV::Tool(s@),
            Message::Assistant(s) => MessageV::Assistant(s@),
        }
    }
}

impl Clone for Message {
    fn clone(&self) -> (r: Self)
        ensures
            r@ == self@,
    {
        match self {
            Message::System(s) => Message::System(s.clone()),
            Message::Developer(s) => Message::Developer(s.clone()),
            Message::User(s) => Message::User(s.clone()),
            Message::Reasoning(s) => Message::Reasoning(s.clone()),
            Message::Tool(s) => Message::Tool(s.clone()),
            Message::Assistant(s) => Message::Assistant(s.clone()),
        }
    }
}

/// The views of a message vector, in order.
pub open spec fn messages_view(v: Seq<Message>) -> Seq<MessageV> {
    v.map_values(|m: Message| m@)
}

/// Copy a history.
pub fn clone_messages(v: &Vec<Message>) -> (r: Vec<Message>)
    ensures
        messages_view(r@) == messages_view(v@),
{
    let mut r: Vec<Message> = Vec::new();
    let mut i: usize = 0;
    while i < v.len()
        invariant
            i <= v@.len(),
            r@.len() == i as int,
            forall|j: int| 0 <= j < i ==> (#[trigger] r@[j])@ == v@[j]@,
        decreases v@.len() - i,
    {
        r.push(v[i].clone());
        i = i + 1;
    }
    proof {
        assert forall|j: int| 0 <= j < v@.len() implies messages_view(r@)[j] == messages_view(
            v@,
        )[j] by {
            assert(messages_view(r@)[j] == r@[j]@);
            assert(messages_view(v@)[j] == v@[j]@);
        }
        assert(messages_view(r@) =~= messages_view(v@));
    }
    r
}

/// One frame of the probe-hub wire protocol.
#[derive(Debug)]
pub enum Frame {
    Request { messages: Vec<Message> },
    Log(String),
    Answer(String),
    Stop,
}

/// Mathematical view of a frame.
pub enum FrameV {
    Request(Seq<MessageV>),
    Log(Seq<char>),
    Answer(Seq<char>),
    Stop,
}

impl View for Frame {
    type V = FrameV;

    open spec fn view(&self) -> FrameV {
        match self {
            Frame::Request { messages } => FrameV::Request(messages_view(messages@)),
            Frame::Log(s) => FrameV::Log(s@),
            Frame::Answer(s) => FrameV::Answer(s@),
            Frame::Stop => FrameV::Stop,
        }
    }
}

/// What can go wrong reading a frame from the stream. A disconnect triggers a
/// reconnect in the turn engine; a decode failure is fatal to the turn.
#[derive(Debug)]
pub enum ProtocolError {
    Disconnect,
    Timeout,
    Io(String),
    Decode(String),
}

impl ProtocolError {
    /// A human-readable rendering of the error.
    pub fn message(&self) -> (r: String)
        ensures
            self matches ProtocolError::Io(e) ==> e@.is_suffix_of(r@),
            self matches ProtocolError::Decode(e) ==> e@.is_suffix_of(r@),
    {
        match self {
            ProtocolError::Disconnect => {
                let v = crate::chars::to_chars(
                    "connection dropped while the request was being read",
                );
                crate::chars::to_string_vec(v.as_slice())
            },
            ProtocolError::Timeout => {
                let v = crate::chars::to_chars("timed out while reading request");
                crate::chars::to_string_vec(v.as_slice())
            },
            ProtocolError::Io(e) => {
                let mut s = String::new();
                s.append("io error: ");
                s.append(e.as_str());
                proof {
                    assert(e@.is_suffix_of(s@));
                }
                s
            },
            ProtocolError::Decode(e) => {
                let mut s = String::new();
                s.append("decode error: ");
                s.append(e.as_str());
                proof {
                    assert(e@.is_suffix_of(s@));
                }
                s
            },
        }
    }

    /// Is this error a disconnect, the kind that a reconnect may heal?
    pub fn is_disconnect(&self) -> (r: bool)
        ensures
            r == (self matches ProtocolError::Disconnect),
    {
        match self {
            ProtocolError::Disconnect => true,
            _ => false,
        }
    }
}

/// Why connecting to a hub failed: the socket path is missing, refused, not a
/// socket, or nothing is listening on it.
#[derive(Debug)]
pub enum ConnectError {
    Missing { path: String },
    PermissionDenied { path: String },
    NotSocket { path: String },
    NoListener { path: String },
}

impl ConnectError {
    /// A human-readable rendering of the error.
    pub fn message(&self) -> (r: String)
        ensures
            self matches ConnectError::Missing { path } ==> path@.is_suffix_of(r@),
            self matches ConnectError::PermissionDenied { path } ==> path@.is_suffix_of(r@),
            self matches ConnectError::NotSocket { path } ==> path@.is_suffix_of(r@),
            self matches ConnectError::NoListener { path } ==> path@.is_suffix_of(r@),
    {
        let (head, path): (&str, &String) = match self {
            ConnectError::Missing { path } => ("missing socket: ", path),
            ConnectError::PermissionDenied { path } => ("permission denied: ", path),
            ConnectError::NotSocket { path } => ("not a socket: ", path),
            ConnectError::NoListener { path } => ("no listener at: ", path),
        };
        let mut s = String::new();
        s.append(head);
        s.append(path.as_str());
        proof {
            assert(path@.is_suffix_of(s@));
        }
        s
    }
}

} // verus!
