//! Payloads as the database reads them.

use vstd::prelude::*;

use crate::event::{Event, SocialVoteProjection, SocialVoteValue, VerifiedEvent};
use crate::ids::{
    ContentHash, EventAuxKey, EventOrder, ExternalEventId, IrohNodeId, RostraId, ShortEventId,
    Timestamp,
};

verus! {

/// A request to follow or to unfollow.
#[derive(Debug)]
pub struct Follow {
    pub followee: RostraId,
    /// The follow ends rather than starts.
    pub unfollow: bool,
    /// Which posts the follower wants to see, as the follower wrote it.
    pub selector: Vec<u8>,
}

/// A post.
#[derive(Debug)]
pub struct SocialPost {
    /// The body.
    pub djot_content: Option<String>,
    /// A reaction to another post.
    pub reaction: Option<String>,
    pub reply_to: Option<ExternalEventId>,
    /// The post is offered as news.
    pub news: bool,
    pub persona_tags: Vec<String>,
}

/// A vote on a post.
#[derive(Debug, Clone, Copy, PartialEq, Eq, Structural)]
pub struct SocialVote {
    pub reply_to: Option<ExternalEventId>,
    pub value: SocialVoteValue,
    /// The auxiliary key that a vote on this post has to carry.
    pub aux_key: EventAuxKey,
}

/// A profile as its user wrote it.
#[derive(Debug)]
pub struct SocialProfileUpdate {
    pub display_name: String,
    pub bio: String,
    pub avatar: Option<(String, Vec<u8>)>,
}

/// What the bytes of a payload say.
#[derive(Debug)]
pub enum Payload {
    /// An announcement of a device for direct messages.
    DmDevice,
    /// A well-formed direct message.
    DirectMessage,
    Follow(Follow),
    /// The endpoint of a node.
    NodeAnnouncement(IrohNodeId),
    SocialPost {
        post: SocialPost,
        /// The body mentions the local user.
        mentions_self: bool,
    },
    SocialProfileUpdate(SocialProfileUpdate),
    SocialVote(SocialVote),
    Shoutbox,
    /// The kind of the event asks for no particular form.
    Opaque,
    /// The bytes are not what the kind of the event asks for.
    Unreadable,
}

/// The characters with the Unicode property `White_Space`.
pub open spec fn white_space(c: char) -> bool {
    let code = c as u32;
    ||| 0x0009 <= code <= 0x000D
    ||| code == 0x0020
    ||| code == 0x0085
    ||| code == 0x00A0
    ||| code == 0x1680
    ||| 0x2000 <= code <= 0x200A
    ||| 0x2028 <= code <= 0x2029
    ||| code == 0x202F
    ||| code == 0x205F
    ||| code == 0x3000
}

/// Tells white space by `char::is_whitespace`, which holds of the characters
/// with the Unicode property `White_Space`.
#[verifier::external_body]
fn is_white_space(c: char) -> (res: bool)
    ensures
        res == white_space(c),
{
    c.is_whitespace()
}

/// A text of nothing but white space.
pub open spec fn blank(text: Seq<char>) -> bool {
    forall|i: int| 0 <= i < text.len() ==> white_space(#[trigger] text[i])
}

/// Whether a text is nothing but white space.
pub fn is_blank_text(text: &String) -> (res: bool)
    ensures
        res == blank(text@),
{
    for c in it: text.as_str().chars()
        invariant
            it.seq() == text@,
            forall|i: int| 0 <= i < it.index() ==> white_space(#[trigger] text@[i]),
    {
        if !is_white_space(c) {
            assert(text@[it.index() as int] == c);
            return false;
        }
    }
    true
}

/// The post has a body that says something.
pub open spec fn has_body(post: SocialPost) -> bool {
    post.djot_content matches Some(text) && !blank(text@)
}

impl SocialPost {
    /// Whether the post has a body that says something.
    pub fn says_something(&self) -> (res: bool)
        ensures
            res == has_body(*self),
    {
        match &self.djot_content {
            Some(text) => !is_blank_text(text),
            None => false,
        }
    }
}

/// The older post that a post replaces: its auxiliary parent, if it asks for
/// that one's payload to be deleted and says something itself.
pub open spec fn replaced_by(event: Event, post: SocialPost) -> Option<ShortEventId> {
    if event.deletes_parent_aux && has_body(post) {
        event.parent_aux
    } else {
        None
    }
}

/// A post shows up unless it only deletes.
pub open spec fn is_projected(event: Event, post: SocialPost) -> bool {
    event.deletes_parent_aux ==> replaced_by(event, post) is Some
}

/// How a post shows up.
#[derive(Debug, Clone, Copy, PartialEq, Eq, Structural)]
pub enum SocialPostProjectionPlan {
    /// Not at all.
    Skip,
    /// Among the others, in place of an older one if it replaces one.
    Apply { replaced_event_id: Option<ShortEventId> },
}

/// The older post that a post replaces.
pub fn social_post_replaced_event_id(event: &VerifiedEvent, post: &SocialPost) -> (res: Option<
    ShortEventId,
>)
    ensures
        res == replaced_by(event.event, *post),
{
    if event.event.deletes_parent_aux && post.says_something() {
        event.event.parent_aux
    } else {
        None
    }
}

/// Decides how a post shows up.
pub fn social_post_projection_plan(event: &VerifiedEvent, post: &SocialPost) -> (res:
    SocialPostProjectionPlan)
    ensures
        res == (if is_projected(event.event, *post) {
            SocialPostProjectionPlan::Apply {
                replaced_event_id: replaced_by(event.event, *post),
            }
        } else {
            SocialPostProjectionPlan::Skip
        }),
{
    let replaced_event_id = social_post_replaced_event_id(event, post);
    if event.event.deletes_parent_aux && replaced_event_id.is_none() {
        SocialPostProjectionPlan::Skip
    } else {
        SocialPostProjectionPlan::Apply { replaced_event_id }
    }
}

/// What is left to the caller of an operation: work in the same transaction
/// that other parts of the client do, and notices to send once it is
/// committed.
#[derive(Debug, Clone, Copy, PartialEq, Eq, Structural)]
pub enum Action {
    /// Apply the device that the author announced in the event at this place.
    ApplyDmDevice { author: RostraId, order: EventOrder },
    /// Give the news post its rank, without votes as yet: when it was written,
    /// and what time it is.
    UpsertNewsRank { post_id: ExternalEventId, written_at: Timestamp, now: Timestamp },
    /// Take the rank of the news post away.
    RemoveNewsRank { post_id: ExternalEventId },
    /// Count the vote that the author cast in the event at this place.
    CountVote {
        vote: SocialVoteProjection,
        author: RostraId,
        order: EventOrder,
        /// The vote of the author that counted before, if there was one.
        held: Option<SocialVoteProjection>,
        /// The new vote takes its place; it does not where the one before is
        /// from the same or a later event.
        replaces: bool,
    },
    /// Drop endpoints of the identity beyond those that are kept.
    TrimNodes { author: RostraId },
    /// A direct message waits.
    DmPending,
    /// Whom the local user follows changed.
    SelfFolloweesChanged,
    /// Who follows the local user changed.
    SelfFollowersChanged,
    /// The local user's web of trust changed.
    SelfWotChanged,
    NewPost { event_id: ShortEventId },
    NewShoutbox { event_id: ShortEventId },
    NewHead { author: RostraId, event_id: ShortEventId },
    /// The local user's head may have changed.
    SelfHead { head: Option<ShortEventId> },
    /// Events of the author are missing.
    MissingEvents { author: RostraId },
    /// A payload is to be fetched.
    ContentMissing,
    /// The stored bytes may be collected once nothing refers to them.
    NominatePayload { content_hash: ContentHash },
    /// A payload was given up for its size.
    QuotaPruned { event_id: ShortEventId },
}

}
