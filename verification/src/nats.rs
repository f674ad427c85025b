//! What regions tell each other over NATS.
//!
//! A message for a user connected to another region travels on the subject
//! `messages.<region>` of that region; every region listens on `presence`
//! for users connecting to and disconnecting from any region.
use vstd::prelude::*;
use crate::text;

verus! {

/// A chat message forwarded from one region to the region of its recipient.
#[derive(Debug, Clone)]
pub struct RegionMessage {
    pub from: String,
    pub from_region: String,
    pub to: String,
    pub content: String,
}

/// What a forwarded message is made of.
pub struct RegionMessageView {
    pub from: Seq<char>,
    pub from_region: Seq<char>,
    pub to: Seq<char>,
    pub content: Seq<char>,
}

impl View for RegionMessage {
    type V = RegionMessageView;

    open spec fn view(&self) -> RegionMessageView {
        RegionMessageView {
            from: self.from@,
            from_region: self.from_region@,
            to: self.to@,
            content: self.content@,
        }
    }
}

/// Whether a user connected to or disconnected from a region.
#[derive(Debug, Clone, Copy, PartialEq, Eq, Structural)]
pub enum PresenceEventKind {
    Connected,
    Disconnected,
}

/// A user connected to or disconnected from a region; every region hears it.
#[derive(Debug, Clone)]
pub struct PresenceEvent {
    pub user_id: String,
    pub region_id: String,
    pub kind: PresenceEventKind,
}

/// What a presence event is made of.
pub struct PresenceEventView {
    pub user_id: Seq<char>,
    pub region_id: Seq<char>,
    pub kind: PresenceEventKind,
}

impl View for PresenceEvent {
    type V = PresenceEventView;

    open spec fn view(&self) -> PresenceEventView {
        PresenceEventView { user_id: self.user_id@, region_id: self.region_id@, kind: self.kind }
    }
}

/// The subject on which region `region` receives forwarded messages.
pub open spec fn messages_subject_of(region: Seq<char>) -> Seq<char> {
    "messages."@ + region
}

/// The subject on which every region hears presence events.
pub open spec fn presence_subject_text() -> Seq<char> {
    "presence"@
}

/// The subject on which region `region` receives forwarded messages:
/// `messages.<region>`.
pub fn messages_subject(region: &str) -> (s: String)
    ensures
        s@ == messages_subject_of(region@),
{
    let r = text::concat_chars(&text::chars_of("messages."), &text::chars_of(region));
    text::string_of(&r)
}

/// The subject on which every region hears presence events: `presence`.
pub fn presence_subject() -> (s: String)
    ensures
        s@ == presence_subject_text(),
{
    text::string_of(&text::chars_of("presence"))
}

} // verus!
