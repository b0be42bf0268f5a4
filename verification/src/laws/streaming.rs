//! Laws of the stream: which bytes carry a frame, and what a connection does.

use vstd::prelude::*;
use crate::stream::{frame_message, on_socket_event, Frame, SocketAction, SocketEvent};

verus! {

/// Law: a frame with data is carried by one byte more than it has: first a 1 for a
/// key frame or a 0 for another, and then the bytes of the frame in order. A frame
/// without data is not carried.
pub proof fn message_is_key_byte_and_data(frame: &Frame, message: Option<Vec<u8>>)
    requires
        call_ensures(frame_message, (frame,), message),
    ensures
        message is Some <==> frame.data@.len() > 0,
        message is Some ==> message->0@.len() == frame.data@.len() + 1,
        message is Some && frame.is_key ==> message->0@[0] == 1,
        message is Some && !frame.is_key ==> message->0@[0] == 0,
        message is Some ==> forall|i: int|
            0 <= i < frame.data@.len() ==> message->0@[i + 1] == #[trigger] frame.data@[i],
{
}

/// Law: a connection sends every new frame that has data, behind its key byte, and
/// goes on waiting on one that has none.
pub proof fn connection_sends_frames_with_data<'a>(frame: &'a Frame, action: SocketAction<'a>)
    requires
        call_ensures(on_socket_event, (SocketEvent::NewFrame(frame),), action),
    ensures
        frame.data@.len() == 0 ==> action is Wait,
        frame.data@.len() > 0 ==> {
            &&& action is Send
            &&& action->Send_0@.len() == frame.data@.len() + 1
            &&& action->Send_0@[0] == (if frame.is_key {
                1u8
            } else {
                0u8
            })
            &&& forall|i: int|
                0 <= i < frame.data@.len() ==> action->Send_0@[i + 1] == #[trigger] frame.data@[i]
        },
{
}

/// Law: a connection closes when no more frames come, when a message could not be
/// sent, and when the other side is gone, and at no other time. It hands every
/// text on as it came, and otherwise waits.
pub proof fn connection_closes_when_it_cannot_go_on<'a>(
    event: SocketEvent<'a>,
    action: SocketAction<'a>,
)
    requires
        call_ensures(on_socket_event, (event,), action),
    ensures
        action is Close <==> event is FramesEnded || event is Gone || event
            == SocketEvent::Sent(false),
        action is Input <==> event is Text,
        event is Text ==> action->Input_0 == event->Text_0,
        action is Send ==> event is NewFrame,
        event is Other ==> action is Wait,
        event == SocketEvent::Sent(true) ==> action is Wait,
{
}

} // verus!
