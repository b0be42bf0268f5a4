//! The stream of frames to a viewport, and the messages that come back.

use vstd::prelude::*;

verus! {

/// An encoded frame. A key frame can be decoded without the ones before it.
#[derive(Clone, Debug, PartialEq, Eq)]
pub struct Frame {
    pub is_key: bool,
    pub data: Vec<u8>,
}

/// The message that carries a frame: one byte, which is 1 for a key frame and 0
/// for another, and then the frame.
pub open spec fn message_of(frame: Frame) -> Seq<u8> {
    seq![
        if frame.is_key {
            1u8
        } else {
            0u8
        },
    ] + frame.data@
}

/// The message that carries a frame, or nothing for a frame without data.
pub fn frame_message(frame: &Frame) -> (message: Option<Vec<u8>>)
    ensures
        match message {
            Some(bytes) => frame.data@.len() > 0 && bytes@ == message_of(*frame),
            None => frame.data@.len() == 0,
        },
{
    if frame.data.len() == 0 {
        return None;
    }
    let mut bytes: Vec<u8> = Vec::new();
    bytes.push(
        if frame.is_key {
            1u8
        } else {
            0u8
        },
    );
    bytes.extend_from_slice(frame.data.as_slice());
    proof {
        assert(bytes@ =~= message_of(*frame));
    }
    Some(bytes)
}

/// What happens on a viewport's connection.
pub enum SocketEvent<'a> {
    /// No more frames will come.
    FramesEnded,
    /// There is a new frame.
    NewFrame(&'a Frame),
    /// A message was sent, or could not be.
    Sent(bool),
    /// The viewport sent a text.
    Text(&'a str),
    /// The viewport sent a message of another kind.
    Other,
    /// The connection failed or was closed.
    Gone,
}

/// What to do next on a viewport's connection.
pub enum SocketAction<'a> {
    /// Wait for the next event.
    Wait,
    /// Send this message.
    Send(Vec<u8>),
    /// Handle this input.
    Input(&'a str),
    /// Close the connection.
    Close,
}

/// What a viewport's connection does on an event.
pub fn on_socket_event<'a>(event: SocketEvent<'a>) -> (action: SocketAction<'a>)
    ensures
        match event {
            SocketEvent::FramesEnded => action is Close,
            SocketEvent::NewFrame(frame) => if frame.data@.len() == 0 {
                action is Wait
            } else {
                action matches SocketAction::Send(bytes) && bytes@ == message_of(*frame)
            },
            SocketEvent::Sent(done) => if done {
                action is Wait
            } else {
                action is Close
            },
            SocketEvent::Text(text) => action == SocketAction::Input(text),
            SocketEvent::Other => action is Wait,
            SocketEvent::Gone => action is Close,
        },
{
    match event {
        SocketEvent::FramesEnded => SocketAction::Close,
        SocketEvent::NewFrame(frame) => match frame_message(frame) {
            Some(bytes) => SocketAction::Send(bytes),
            None => SocketAction::Wait,
        },
        SocketEvent::Sent(done) => if done {
            SocketAction::Wait
        } else {
            SocketAction::Close
        },
        SocketEvent::Text(text) => SocketAction::Input(text),
        SocketEvent::Other => SocketAction::Wait,
        SocketEvent::Gone => SocketAction::Close,
    }
}

/// Whether the viewer takes a message for a key frame.
pub open spec fn viewer_is_key(message: Seq<u8>) -> bool {
    message[0] == 1
}

/// What the viewer hands to its decoder of a message.
pub open spec fn viewer_data(message: Seq<u8>) -> Seq<u8> {
    message.skip(1)
}

/// Law: the viewer reads a frame back as it was sent.
pub proof fn viewer_reads_frame_back(frame: Frame)
    ensures
        viewer_is_key(message_of(frame)) == frame.is_key,
        viewer_data(message_of(frame)) == frame.data@,
{
    assert(viewer_data(message_of(frame)) =~= frame.data@);
}

/// Law: two frames that differ are sent as messages that differ.
pub proof fn messages_tell_frames_apart(a: Frame, b: Frame)
    requires
        message_of(a) == message_of(b),
    ensures
        a.is_key == b.is_key,
        a.data@ == b.data@,
{
    viewer_reads_frame_back(a);
    viewer_reads_frame_back(b);
}

/// The messages that are sent for a series of frames: one for each frame that
/// has data.
pub open spec fn messages_for(frames: Seq<Frame>) -> Seq<Seq<u8>>
    decreases frames.len(),
{
    if frames.len() == 0 {
        Seq::empty()
    } else if frames[0].data@.len() == 0 {
        messages_for(frames.drop_first())
    } else {
        seq![message_of(frames[0])] + messages_for(frames.drop_first())
    }
}

/// What the viewer decodes of a series of messages, each with whether it is a
/// key frame: everything from the first key frame on.
pub open spec fn viewed(messages: Seq<Seq<u8>>, synced: bool) -> Seq<(bool, Seq<u8>)>
    decreases messages.len(),
{
    if messages.len() == 0 {
        Seq::empty()
    } else {
        let key = viewer_is_key(messages[0]);
        if !synced && !key {
            viewed(messages.drop_first(), false)
        } else {
            seq![(key, viewer_data(messages[0]))] + viewed(messages.drop_first(), true)
        }
    }
}

/// The frames with data of a series.
pub open spec fn with_data(frames: Seq<Frame>) -> Seq<(bool, Seq<u8>)>
    decreases frames.len(),
{
    if frames.len() == 0 {
        Seq::empty()
    } else if frames[0].data@.len() == 0 {
        with_data(frames.drop_first())
    } else {
        seq![(frames[0].is_key, frames[0].data@)] + with_data(frames.drop_first())
    }
}

/// The end of a series of frames that starts at its first key frame.
pub open spec fn from_first_key(frames: Seq<(bool, Seq<u8>)>) -> Seq<(bool, Seq<u8>)>
    decreases frames.len(),
{
    if frames.len() == 0 || frames[0].0 {
        frames
    } else {
        from_first_key(frames.drop_first())
    }
}

proof fn lemma_viewed(frames: Seq<Frame>, synced: bool)
    ensures
        viewed(messages_for(frames), synced) == if synced {
            with_data(frames)
        } else {
            from_first_key(with_data(frames))
        },
    decreases frames.len(),
{
    if frames.len() > 0 {
        let rest = frames.drop_first();
        lemma_viewed(rest, true);
        lemma_viewed(rest, false);
        if frames[0].data@.len() > 0 {
            viewer_reads_frame_back(frames[0]);
            assert(messages_for(frames).drop_first() =~= messages_for(rest));
            assert(with_data(frames).drop_first() =~= with_data(rest));
        }
    }
}

/// Law: a viewer that joins decodes the frames that are sent to it, unchanged
/// and in order, from the first key frame on; frames without data are left out.
pub proof fn viewer_decodes_from_first_key(frames: Seq<Frame>)
    ensures
        viewed(messages_for(frames), false) == from_first_key(with_data(frames)),
{
    lemma_viewed(frames, false);
}

} // verus!
