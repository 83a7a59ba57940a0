//! What users say of themselves: profiles and personas.

use vstd::prelude::*;

use crate::ids::{ShortEventId, Timestamp};
use crate::strings::{ended, lemma_split_text, parse_ended, push_ended, split_text};
use crate::table::{
    bytes_of_words, lemma_bytes_of_words, parse_bytes, push_bytes, words_of_bytes, Value,
};
use crate::tables::Latest;
use crate::words::{to_words, Words};

verus! {

/// A user's profile.
#[derive(Debug)]
pub struct IdSocialProfileRecord {
    /// The event that the profile came from.
    pub event_id: ShortEventId,
    pub display_name: String,
    pub bio: String,
    /// Media type and bytes of the picture.
    pub avatar: Option<(String, Vec<u8>)>,
}

/// What a profile stands for.
pub ghost struct ProfileModel {
    pub event_id: ShortEventId,
    pub display_name: Seq<char>,
    pub bio: Seq<char>,
    pub avatar: Option<(Seq<char>, Seq<u8>)>,
}

impl View for IdSocialProfileRecord {
    type V = ProfileModel;

    open spec fn view(&self) -> ProfileModel {
        ProfileModel {
            event_id: self.event_id,
            display_name: self.display_name@,
            bio: self.bio@,
            avatar: match self.avatar {
                Some((media, bytes)) => Some((media@, bytes@)),
                None => None,
            },
        }
    }
}

/// The picture at the end of an encoded profile.
pub open spec fn avatar_words(avatar: Option<(Seq<char>, Seq<u8>)>) -> Seq<u64> {
    match avatar {
        Some((media, bytes)) => ended(media) + words_of_bytes(bytes),
        None => Seq::empty(),
    }
}

/// The picture that the end of an encoded profile holds.
pub open spec fn avatar_of_words(has_avatar: bool, w: Seq<u64>) -> Option<
    Option<(Seq<char>, Seq<u8>)>,
> {
    if has_avatar {
        match split_text(w) {
            Some((media, rest)) => match bytes_of_words(rest) {
                Some(bytes) => Some(Some((media, bytes))),
                None => None,
            },
            None => None,
        }
    } else {
        Some(None)
    }
}

/// What stands before the texts of a profile takes four words.
proof fn lemma_head_width()
    ensures
        <(Timestamp, (ShortEventId, bool))>::width() == 4,
{
    assert(u64::width() == 1);
    assert(<(u64, u64)>::width() == 2);
    assert(Timestamp::width() == u64::width());
    assert(ShortEventId::width() == <(u64, u64)>::width());
    assert(bool::width() == 1);
    assert(<(ShortEventId, bool)>::width() == 3);
}

impl Value for Latest<IdSocialProfileRecord> {
    type Model = (Timestamp, ProfileModel);

    open spec fn model(self) -> (Timestamp, ProfileModel) {
        (self.ts, self.inner@)
    }

    open spec fn encoded(m: (Timestamp, ProfileModel)) -> Seq<u64> {
        (m.0, (m.1.event_id, m.1.avatar is Some)).words() + (ended(m.1.display_name) + (ended(
            m.1.bio,
        ) + avatar_words(m.1.avatar)))
    }

    open spec fn decoded(w: Seq<u64>) -> Option<(Timestamp, ProfileModel)> {
        if w.len() < 4 {
            None
        } else {
            match <(Timestamp, (ShortEventId, bool))>::parsed(w.take(4)) {
                None => None,
                Some((ts, (event_id, has_avatar))) => match split_text(w.skip(4)) {
                    None => None,
                    Some((display_name, rest)) => match split_text(rest) {
                        None => None,
                        Some((bio, rest)) => match avatar_of_words(has_avatar, rest) {
                            None => None,
                            Some(avatar) => Some(
                                (ts, ProfileModel { event_id, display_name, bio, avatar }),
                            ),
                        },
                    },
                },
            }
        }
    }

    proof fn lemma_decoded(m: (Timestamp, ProfileModel)) {
        let head = (m.0, (m.1.event_id, m.1.avatar is Some));
        let tail = avatar_words(m.1.avatar);
        let w = Self::encoded(m);
        head.lemma_round_trip();
        lemma_head_width();
        assert(w.take(4) =~= head.words());
        assert(w.skip(4) =~= ended(m.1.display_name) + (ended(m.1.bio) + tail));
        lemma_split_text(m.1.display_name, ended(m.1.bio) + tail);
        lemma_split_text(m.1.bio, tail);
        if let Some((media, bytes)) = m.1.avatar {
            lemma_split_text(media, words_of_bytes(bytes));
            lemma_bytes_of_words(bytes);
        }
    }

    fn encode(&self) -> (w: Vec<u64>) {
        let mut w: Vec<u64> = to_words(
            &(self.ts, (self.inner.event_id, self.inner.avatar.is_some())),
        );
        let ghost head = w@;
        push_ended(&self.inner.display_name, &mut w);
        push_ended(&self.inner.bio, &mut w);
        let ghost texts = w@;
        if let Some((media, bytes)) = &self.inner.avatar {
            push_ended(media, &mut w);
            push_bytes(bytes, &mut w);
        }
        assert(w@ =~= Self::encoded(self.model()));
        w
    }

    fn decode(w: &Vec<u64>) -> (res: Option<Self>) {
        proof {
            lemma_head_width();
            if w@.len() >= 4 {
                assert(w@.subrange(0, 4) =~= w@.take(4));
            }
        }
        let ((ts, (event_id, has_avatar)), at) = match <(
            Timestamp,
            (ShortEventId, bool),
        )>::parse_at(w, 0) {
            Some(head) => head,
            None => return None,
        };
        let (display_name, at) = match parse_ended(w, at) {
            Some(text) => text,
            None => return None,
        };
        let (bio, at) = match parse_ended(w, at) {
            Some(text) => text,
            None => return None,
        };
        let avatar = if has_avatar {
            let (media, at) = match parse_ended(w, at) {
                Some(text) => text,
                None => return None,
            };
            match parse_bytes(w, at) {
                Some(bytes) => Some((media, bytes)),
                None => return None,
            }
        } else {
            None
        };
        Some(Latest { ts, inner: IdSocialProfileRecord { event_id, display_name, bio, avatar } })
    }
}

/// A persona of a user.
#[derive(Debug)]
pub struct IdsPersonaRecord {
    pub display_name: String,
}

impl Value for IdsPersonaRecord {
    type Model = Seq<char>;

    open spec fn model(self) -> Seq<char> {
        self.display_name@
    }

    open spec fn encoded(m: Seq<char>) -> Seq<u64> {
        ended(m)
    }

    open spec fn decoded(w: Seq<u64>) -> Option<Seq<char>> {
        match split_text(w) {
            Some((text, rest)) => Some(text),
            None => None,
        }
    }

    proof fn lemma_decoded(m: Seq<char>) {
        lemma_split_text(m, Seq::empty());
        assert(ended(m) + Seq::empty() =~= ended(m));
    }

    fn encode(&self) -> (w: Vec<u64>) {
        let mut w: Vec<u64> = Vec::new();
        push_ended(&self.display_name, &mut w);
        assert(w@ =~= ended(self.display_name@));
        w
    }

    fn decode(w: &Vec<u64>) -> (res: Option<Self>) {
        assert(w@.skip(0) =~= w@);
        match parse_ended(w, 0) {
            Some((display_name, _)) => Some(IdsPersonaRecord { display_name }),
            None => None,
        }
    }
}

}
