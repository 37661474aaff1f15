//! Wire messages, outbound effects and the command error taxonomy.

use vstd::prelude::*;

verus! {

/// One decoded wire message. The `cmd` tag selects the command; every other
/// field is optional and command-specific. An absent field is `None`.
#[derive(Debug)]
pub struct Msg {
    pub cmd: String,
    pub id: Option<i32>,
    pub x: Option<i32>,
    pub y: Option<i32>,
    pub speed: Option<i32>,
    pub name: Option<String>,
    pub signature: Option<String>,
    pub img: Option<String>,
    pub text: Option<String>,
    pub style: Option<String>,
}

impl Msg {
    /// Every optional field is absent.
    pub open spec fn fields_absent(self) -> bool {
        &&& self.id is None
        &&& self.x is None
        &&& self.y is None
        &&& self.speed is None
        &&& self.name is None
        &&& self.signature is None
        &&& self.img is None
        &&& self.text is None
        &&& self.style is None
    }

    /// A message carrying nothing besides `cmd` and `id`.
    pub open spec fn only_id(self) -> bool {
        &&& self.x is None
        &&& self.y is None
        &&& self.speed is None
        &&& self.name is None
        &&& self.signature is None
        &&& self.img is None
        &&& self.text is None
        &&& self.style is None
    }

    /// `you{id}`: tells the issuing client which unit it received.
    pub open spec fn is_you(self, id: i32) -> bool {
        &&& self.cmd@ == "you"@
        &&& self.id == Some(id)
        &&& self.only_id()
    }

    /// `remove{id}`: a unit left the world.
    pub open spec fn is_remove(self, id: i32) -> bool {
        &&& self.cmd@ == "remove"@
        &&& self.id == Some(id)
        &&& self.only_id()
    }

    /// `chat{id, text}`: relayed verbatim.
    pub open spec fn is_chat(self, id: Option<i32>, text: Option<String>) -> bool {
        &&& self.cmd@ == "chat"@
        &&& self.id == id
        &&& self.text == text
        &&& self.x is None
        &&& self.y is None
        &&& self.speed is None
        &&& self.name is None
        &&& self.signature is None
        &&& self.img is None
        &&& self.style is None
    }

    /// `url{x, text}`: privileged announcement.
    pub open spec fn is_url(self, x: Option<i32>, text: Option<String>) -> bool {
        &&& self.cmd@ == "url"@
        &&& self.x == x
        &&& self.text == text
        &&& self.id is None
        &&& self.y is None
        &&& self.speed is None
        &&& self.name is None
        &&& self.signature is None
        &&& self.img is None
        &&& self.style is None
    }

    /// `call{x: caller unit, y: occupant unit}`: interaction ping.
    pub open spec fn is_call(self, from: i32, to: i32) -> bool {
        &&& self.cmd@ == "call"@
        &&& self.x == Some(from)
        &&& self.y == Some(to)
        &&& self.id is None
        &&& self.speed is None
        &&& self.name is None
        &&& self.signature is None
        &&& self.img is None
        &&& self.text is None
        &&& self.style is None
    }

    /// `move{id, x, y, speed}`: a unit stepped or warped; `speed` is the
    /// configured movement constant for a timed step and `0` for a warp.
    pub open spec fn is_move(self, id: i32, x: i32, y: i32, speed: i32) -> bool {
        &&& self.cmd@ == "move"@
        &&& self.id == Some(id)
        &&& self.x == Some(x)
        &&& self.y == Some(y)
        &&& self.speed == Some(speed)
        &&& self.name is None
        &&& self.signature is None
        &&& self.img is None
        &&& self.text is None
        &&& self.style is None
    }

    /// `unit{id, x, y, name, img, text, style}`: describes one live unit.
    pub open spec fn is_unit_desc(
        self,
        id: i32,
        x: i32,
        y: i32,
        name: Seq<char>,
        img: Seq<char>,
        text: Seq<char>,
        style: Seq<char>,
    ) -> bool {
        &&& self.cmd@ == "unit"@
        &&& self.id == Some(id)
        &&& self.x == Some(x)
        &&& self.y == Some(y)
        &&& self.speed is None
        &&& self.signature is None
        &&& (self.name matches Some(n) && n@ == name)
        &&& (self.img matches Some(i) && i@ == img)
        &&& (self.text matches Some(t) && t@ == text)
        &&& (self.style matches Some(s) && s@ == style)
    }

    /// Builds a `move{id, x, y, speed}` message.
    pub fn move_msg(id: i32, x: i32, y: i32, speed: i32) -> (m: Msg)
        ensures
            m.is_move(id, x, y, speed),
    {
        let mut m = Msg::bare("move".to_owned());
        m.id = Some(id);
        m.x = Some(x);
        m.y = Some(y);
        m.speed = Some(speed);
        m
    }

    /// Builds a `you{id}` message.
    pub fn you_msg(id: i32) -> (m: Msg)
        ensures
            m.is_you(id),
    {
        let mut m = Msg::bare("you".to_owned());
        m.id = Some(id);
        m
    }

    /// Builds a `remove{id}` message.
    pub fn remove_msg(id: i32) -> (m: Msg)
        ensures
            m.is_remove(id),
    {
        let mut m = Msg::bare("remove".to_owned());
        m.id = Some(id);
        m
    }

    /// Builds a `call{x, y}` message.
    pub fn call_msg(from: i32, to: i32) -> (m: Msg)
        ensures
            m.is_call(from, to),
    {
        let mut m = Msg::bare("call".to_owned());
        m.x = Some(from);
        m.y = Some(to);
        m
    }

    /// A message with the given tag and nothing else.
    pub fn bare(cmd: String) -> (m: Msg)
        ensures
            m.cmd == cmd,
            m.fields_absent(),
    {
        Msg {
            cmd,
            id: None,
            x: None,
            y: None,
            speed: None,
            name: None,
            signature: None,
            img: None,
            text: None,
            style: None,
        }
    }
}

/// One outbound delivery the caller owes after a state transition: either a
/// targeted send to one connection or a broadcast to every registered one.
#[derive(Debug)]
pub enum Effect {
    Send { to: i32, msg: Msg },
    Broadcast { msg: Msg },
}

impl Effect {
    pub open spec fn is_broadcast(self) -> bool {
        self matches Effect::Broadcast { .. }
    }

    pub open spec fn is_send_to(self, to: i32) -> bool {
        self matches Effect::Send { to: t, .. } && t == to
    }

    pub open spec fn msg(self) -> Msg {
        match self {
            Effect::Send { msg, .. } => msg,
            Effect::Broadcast { msg } => msg,
        }
    }
}

/// Why a command was refused. Every error is fatal to the issuing
/// connection; `Close` is the normal termination requested by the `close`
/// command and by a malformed inbound message the transport could not decode.
#[derive(Debug, Clone, Copy, PartialEq, Eq, Structural)]
pub enum CmdError {
    /// Bad or missing login credentials.
    Auth,
    /// A command on a unit the connection does not own, or a privileged-only
    /// action by an unprivileged user.
    Permission,
    /// An out-of-range value or a missing required field.
    Validation,
    /// The referenced unit no longer exists.
    NotFound,
    /// A malformed inbound message.
    Protocol,
    /// Normal termination requested by the client.
    Close,
}

impl CmdError {
    /// A short description for the connection log.
    pub fn describe(&self) -> (s: &'static str)
        ensures
            match self {
                CmdError::Auth => s@ == "invalid credentials"@,
                CmdError::Permission => s@ == "permission denied"@,
                CmdError::Validation => s@ == "invalid command"@,
                CmdError::NotFound => s@ == "no such unit"@,
                CmdError::Protocol => s@ == "malformed message"@,
                CmdError::Close => s@ == "closed"@,
            },
    {
        match self {
            CmdError::Auth => "invalid credentials",
            CmdError::Permission => "permission denied",
            CmdError::Validation => "invalid command",
            CmdError::NotFound => "no such unit",
            CmdError::Protocol => "malformed message",
            CmdError::Close => "closed",
        }
    }
}

} // verus!
