//! The protocol of a renderer driven from a language that cannot carry a
//! borrow: at most one frame open, a camera bound only while drawing in 3D,
//! and a window that stays closed once closed.
use vstd::prelude::*;

verus! {

/// Why a renderer call was refused.
#[derive(Clone, Copy, Debug, PartialEq, Eq, Structural)]
pub enum SessionError {
    /// `begin_frame` while a frame is open.
    FrameAlreadyOpen,
    /// `end_frame` with no frame open.
    NotOpen,
    /// A draw call with no frame open.
    NoFrame,
    /// A 3D draw call with a frame open but no camera bound.
    NoCamera,
}

/// The one-line description of a refused call.
pub open spec fn session_message(e: SessionError) -> Seq<char> {
    match e {
        SessionError::FrameAlreadyOpen => "a frame is already open; call end_frame() first"@,
        SessionError::NotOpen => "no frame is open"@,
        SessionError::NoFrame => "no frame is open; call begin_frame() first"@,
        SessionError::NoCamera => "no camera is bound; call scene(camera) first"@,
    }
}

impl SessionError {
    /// Describe the refusal in one line, for display.
    pub fn message(&self) -> (s: String)
        ensures
            s@ == session_message(*self),
    {
        match self {
            SessionError::FrameAlreadyOpen => String::from_str(
                "a frame is already open; call end_frame() first",
            ),
            SessionError::NotOpen => String::from_str("no frame is open"),
            SessionError::NoFrame => String::from_str("no frame is open; call begin_frame() first"),
            SessionError::NoCamera => String::from_str("no camera is bound; call scene(camera) first"),
        }
    }
}

/// The renderer's protocol state; `S` is what binding a camera records.
pub struct Session<S> {
    frame_open: bool,
    scene: Option<S>,
    closed: bool,
}

impl<S> Session<S> {
    /// Whether a frame is open.
    pub closed spec fn is_open(self) -> bool {
        self.frame_open
    }

    /// The bound camera, if any.
    pub closed spec fn bound(self) -> Option<S> {
        self.scene
    }

    /// Whether the window has been closed.
    pub closed spec fn is_closed(self) -> bool {
        self.closed
    }

    /// No frame, no camera, window open.
    pub fn new() -> (s: Self)
        ensures
            !s.is_open(),
            s.bound() is None,
            !s.is_closed(),
    {
        Session { frame_open: false, scene: None, closed: false }
    }

    /// Open a frame, refusing if one is already open.
    pub fn begin_frame(&mut self) -> (r: Result<(), SessionError>)
        ensures
            r is Ok <==> !old(self).is_open(),
            r matches Err(e) ==> e == SessionError::FrameAlreadyOpen,
            final(self).is_open(),
            final(self).bound() == old(self).bound(),
            final(self).is_closed() == old(self).is_closed(),
    {
        if self.frame_open {
            return Err(SessionError::FrameAlreadyOpen);
        }
        self.frame_open = true;
        Ok(())
    }

    /// Bind a camera for the 3D primitives; binding needs no open frame.
    pub fn bind_scene(&mut self, s: S)
        ensures
            final(self).bound() == Some(s),
            final(self).is_open() == old(self).is_open(),
            final(self).is_closed() == old(self).is_closed(),
    {
        self.scene = Some(s);
    }

    /// Release the bound camera.
    pub fn end_scene(&mut self)
        ensures
            final(self).bound() is None,
            final(self).is_open() == old(self).is_open(),
            final(self).is_closed() == old(self).is_closed(),
    {
        self.scene = None;
    }

    /// Close the frame, releasing the camera whether or not one was open.
    pub fn end_frame(&mut self) -> (r: Result<(), SessionError>)
        ensures
            r is Ok <==> old(self).is_open(),
            r matches Err(e) ==> e == SessionError::NotOpen,
            !final(self).is_open(),
            final(self).bound() is None,
            final(self).is_closed() == old(self).is_closed(),
    {
        self.scene = None;
        if !self.frame_open {
            return Err(SessionError::NotOpen);
        }
        self.frame_open = false;
        Ok(())
    }

    /// Whether 2D drawing may proceed.
    pub fn frame(&self) -> (r: Result<(), SessionError>)
        ensures
            r is Ok <==> self.is_open(),
            r matches Err(e) ==> e == SessionError::NoFrame,
    {
        if self.frame_open {
            Ok(())
        } else {
            Err(SessionError::NoFrame)
        }
    }

    /// The bound camera for 3D drawing. With no frame open that is the
    /// complaint, even when no camera is bound either: it is the actionable one.
    pub fn bound_scene(&self) -> (r: Result<&S, SessionError>)
        ensures
            !self.is_open() ==> r == Err::<&S, SessionError>(SessionError::NoFrame),
            self.is_open() && self.bound() is None ==> r == Err::<&S, SessionError>(
                SessionError::NoCamera,
            ),
            self.is_open() && self.bound() is Some ==> (r matches Ok(s) && *s == self.bound()->0),
    {
        if !self.frame_open {
            return Err(SessionError::NoFrame);
        }
        match &self.scene {
            Some(s) => Ok(s),
            None => Err(SessionError::NoCamera),
        }
    }

    /// Record one round of window events; `true` while the window is open.
    /// A closed window stays closed.
    pub fn poll(&mut self, close_requested: bool) -> (open: bool)
        ensures
            final(self).is_closed() == (old(self).is_closed() || close_requested),
            open == !final(self).is_closed(),
            final(self).is_open() == old(self).is_open(),
            final(self).bound() == old(self).bound(),
    {
        self.closed = self.closed || close_requested;
        !self.closed
    }
}

} // verus!
