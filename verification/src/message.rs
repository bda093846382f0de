//! Messages of the message board and their derivation.
//!
//! A [`MessageInput`] is a record as it was loaded. Deriving it keeps every
//! field, adds the decal, and adds the characters of the sender's name and
//! of the text to the page's [`Charset`].

use vstd::prelude::*;
use crate::charset::{subsets_of, Charset, FontSubsets};
use crate::decal::{decal_of, decal_variant, id_fault, ValidationError};

verus! {

/// A smaller rendition of an image.
#[derive(Clone, Debug, PartialEq, Eq)]
pub struct Thumbnail {
    pub path: String,
    pub width: u32,
    pub height: u32,
}

/// What a message shows beside its text. The derivation passes it through.
#[derive(Clone, Debug, PartialEq, Eq)]
pub enum MessageMedia {
    Image { path: String, width: u32, height: u32, thumbnail: Option<Thumbnail> },
    YouTube { path: String, width: u32, height: u32, video_id: String },
    YouTubeClip {
        path: String,
        width: u32,
        height: u32,
        video_id: String,
        clip_id: String,
        clip_timestamp: String,
    },
}

/// A message as loaded.
#[derive(Clone, Debug, PartialEq, Eq)]
pub struct MessageInput {
    /// The hexadecimal numeral of a 16-byte integer.
    pub id: String,
    pub sender_name: String,
    pub sender_title: Option<String>,
    pub media: Option<MessageMedia>,
    pub message: String,
}

/// A message ready to render.
#[derive(Clone, Debug, PartialEq, Eq)]
pub struct Message {
    pub id: String,
    pub sender_name: String,
    pub sender_title: Option<String>,
    pub media: Option<MessageMedia>,
    pub message: String,
    /// The decal that decorates the message.
    pub decal_variant: u64,
}

/// The message board's render context.
#[derive(Clone, Debug, PartialEq, Eq)]
pub struct MessageBoard {
    /// The messages, in the order in which they were loaded.
    pub messages: Vec<Message>,
    /// The characters that each font has to supply.
    pub subsets: FontSubsets,
}

/// `input` with the decal `decal` added.
pub open spec fn with_decal(input: MessageInput, decal: u64) -> Message {
    Message {
        id: input.id,
        sender_name: input.sender_name,
        sender_title: input.sender_title,
        media: input.media,
        message: input.message,
        decal_variant: decal,
    }
}

/// `message` is `input` with its decal.
pub open spec fn derives(input: MessageInput, message: Message) -> bool {
    &&& decal_of(input.sender_name@, input.id@) == Some(message.decal_variant as nat)
    &&& message == with_decal(input, message.decal_variant)
}

/// `input` has a decal.
pub open spec fn is_derivable(input: MessageInput) -> bool {
    decal_of(input.sender_name@, input.id@) is Some
}

/// The characters of a message: those of the sender's name and of the text.
pub open spec fn message_chars(input: MessageInput) -> Set<char> {
    input.sender_name@.to_set().union(input.message@.to_set())
}

/// The characters of all messages of a batch.
pub open spec fn batch_chars(inputs: Seq<MessageInput>) -> Set<char>
    decreases inputs.len(),
{
    if inputs.len() == 0 {
        Set::empty()
    } else {
        batch_chars(inputs.drop_last()).union(message_chars(inputs.last()))
    }
}

/// Derives one message and adds its characters to `charset`.
///
/// Succeeds exactly when the message has a decal. On failure `charset` is
/// left as it was and the error says what is wrong with the id.
pub fn derive_message(input: MessageInput, charset: &mut Charset) -> (r: Result<
    Message,
    ValidationError,
>)
    ensures
        match r {
            Ok(message) => {
                &&& derives(input, message)
                &&& final(charset)@ == old(charset)@.union(message_chars(input))
            },
            Err(e) => {
                &&& !is_derivable(input)
                &&& id_fault(input.id@, e)
                &&& final(charset)@ == old(charset)@
            },
        },
{
    let decal = match decal_variant(input.sender_name.as_str(), input.id.as_str()) {
        Ok(decal) => decal,
        Err(e) => {
            return Err(e);
        },
    };
    charset.extend_from_str(input.sender_name.as_str());
    charset.extend_from_str(input.message.as_str());
    proof {
        assert(charset@ =~= old(charset)@.union(message_chars(input)));
    }
    Ok(
        Message {
            id: input.id,
            sender_name: input.sender_name,
            sender_title: input.sender_title,
            media: input.media,
            message: input.message,
            decal_variant: decal,
        },
    )
}

/// `k` is the position of the first message of `inputs` without a decal.
pub open spec fn first_underivable(inputs: Seq<MessageInput>, k: int) -> bool {
    &&& 0 <= k < inputs.len()
    &&& !is_derivable(inputs[k])
    &&& forall|j: int| 0 <= j < k ==> is_derivable(#[trigger] inputs[j])
}

/// Derives a batch of messages into the message board's render context.
///
/// Succeeds exactly when every message has a decal. The context then holds
/// each message with its decal, in order, and the font subsets of the
/// characters of the whole batch. Otherwise the error is that of the first
/// message without a decal, and nothing is returned of the others.
pub fn derive_messages(inputs: Vec<MessageInput>) -> (r: Result<MessageBoard, ValidationError>)
    ensures
        match r {
            Ok(board) => {
                &&& board.messages@.len() == inputs@.len()
                &&& forall|i: int|
                    0 <= i < inputs@.len() ==> derives(inputs@[i], #[trigger] board.messages@[i])
                &&& subsets_of(batch_chars(inputs@), board.subsets)
            },
            Err(e) => exists|k: int|
                first_underivable(inputs@, k) && id_fault(#[trigger] inputs@[k].id@, e),
        },
{
    let mut charset = Charset::new();
    let mut messages: Vec<Message> = Vec::new();
    let ghost all = inputs@;
    proof {
        assert(all.take(0) =~= Seq::<MessageInput>::empty());
    }
    for input in it: inputs.into_iter()
        invariant
            it.seq() == all,
            messages@.len() == it.index(),
            forall|i: int| 0 <= i < it.index() ==> derives(all[i], #[trigger] messages@[i]),
            charset@ == batch_chars(all.take(it.index())),
    {
        let ghost k = it.index();
        proof {
            assert(all.take(k + 1).drop_last() =~= all.take(k));
            assert(all.take(k + 1).last() == all[k]);
        }
        match derive_message(input, &mut charset) {
            Ok(message) => {
                messages.push(message);
            },
            Err(e) => {
                proof {
                    assert forall|j: int| 0 <= j < k implies is_derivable(#[trigger] all[j]) by {
                        assert(derives(all[j], messages@[j]));
                    }
                    assert(first_underivable(all, k));
                }
                return Err(e);
            },
        }
    }
    proof {
        assert(all.take(all.len() as int) =~= all);
    }
    let subsets = charset.subsets();
    Ok(MessageBoard { messages, subsets })
}

} // verus!
