use vstd::prelude::*;
use vstd::string::StringExecFns;

use crate::events::{Event, EventView, GuildEvent, GuildEventView};
use crate::topic::{Topic, TopicView};
use crate::topics::{TopicEvent, TopicEventView};

verus! {

#[verifier::external_type_specification]
#[verifier::external_body]
pub struct ExJsonError(serde_json::Error);

/// The character of decimal digit `d`.
pub open spec fn digit_char(d: u64) -> char {
    if d == 0 { '0' } else if d == 1 { '1' } else if d == 2 { '2' } else if d == 3 { '3' }
    else if d == 4 { '4' } else if d == 5 { '5' } else if d == 6 { '6' } else if d == 7 { '7' }
    else if d == 8 { '8' } else { '9' }
}

/// `n` written in decimal, without leading zeros.
pub open spec fn decimal(n: u64) -> Seq<char>
    decreases n,
{
    if n < 10 {
        seq![digit_char(n)]
    } else {
        decimal(n / 10) + seq![digit_char(n % 10)]
    }
}

/// The numbers of `ids` in decimal, separated by commas.
pub open spec fn comma_joined(ids: Seq<u64>) -> Seq<char>
    decreases ids.len(),
{
    if ids.len() == 0 {
        seq![]
    } else if ids.len() == 1 {
        decimal(ids[0])
    } else {
        comma_joined(ids.drop_last()) + seq![','] + decimal(ids.last())
    }
}

/// `ids` as a JSON array of numbers.
pub open spec fn json_array(ids: Seq<u64>) -> Seq<char> {
    seq!['['] + comma_joined(ids) + seq![']']
}

/// Relies on `u64`'s `ToString`: the decimal digits of `n`.
#[verifier::external_body]
fn decimal_text(n: u64) -> (r: String)
    ensures
        r@ == decimal(n),
{
    n.to_string()
}

/// Relies on `serde_json::to_string` for a list of integers: a JSON array of
/// their decimal forms, with no spaces; writing integers to a string cannot
/// fail.
#[verifier::external_body]
fn ids_json(ids: &Vec<u64>) -> (r: Result<String, serde_json::Error>)
    ensures
        r is Ok,
        r matches Ok(s) ==> s@ == json_array(ids@),
{
    serde_json::to_string(ids)
}

/// A frame pushed to one client over the live-update stream.
pub enum Frame {
    /// Keep-alive, sent every few seconds.
    Ping,
    GuildUpdated,
    TopicUpdated(u64),
    TopicDeleted(u64),
    /// A new topic, to be rendered into the client's list.
    TopicCreated(Topic),
    /// The guild's full order, most-ranked first.
    OrderChanged(Vec<u64>),
}

pub enum FrameView {
    Ping,
    GuildUpdated,
    TopicUpdated(u64),
    TopicDeleted(u64),
    TopicCreated(TopicView),
    OrderChanged(Seq<u64>),
}

impl View for Frame {
    type V = FrameView;

    open spec fn view(&self) -> FrameView {
        match self {
            Frame::Ping => FrameView::Ping,
            Frame::GuildUpdated => FrameView::GuildUpdated,
            Frame::TopicUpdated(id) => FrameView::TopicUpdated(*id),
            Frame::TopicDeleted(id) => FrameView::TopicDeleted(*id),
            Frame::TopicCreated(t) => FrameView::TopicCreated(t@),
            Frame::OrderChanged(ids) => FrameView::OrderChanged(ids@),
        }
    }
}

/// The name a frame carries on the wire.
pub open spec fn frame_name(f: FrameView) -> Seq<char> {
    match f {
        FrameView::Ping => "ping"@,
        FrameView::GuildUpdated => "guild-updated"@,
        FrameView::TopicUpdated(id) => "topic-updated-"@ + decimal(id),
        FrameView::TopicDeleted(id) => "topic-deleted-"@ + decimal(id),
        FrameView::TopicCreated(_) => "topic-created"@,
        FrameView::OrderChanged(_) => "topics-order-changed"@,
    }
}

/// The frame a session on guild `g` sends for application event `e`, if any.
pub open spec fn frame_of(g: u64, e: EventView) -> Option<FrameView> {
    match e {
        EventView::Guild(GuildEventView::Update(guild)) => if guild.id == g {
            Some(FrameView::GuildUpdated)
        } else {
            None
        },
        EventView::Topic(TopicEventView::Update(t)) => if t.guild_id == g {
            Some(FrameView::TopicUpdated(t.id))
        } else {
            None
        },
        EventView::Topic(TopicEventView::Delete(t)) => if t.guild_id == g {
            Some(FrameView::TopicDeleted(t.id))
        } else {
            None
        },
        EventView::Topic(TopicEventView::Create(t)) => if t.guild_id == g {
            Some(FrameView::TopicCreated(t))
        } else {
            None
        },
        EventView::Topic(TopicEventView::OrderChange(og, ids)) => if og == g {
            Some(FrameView::OrderChanged(ids))
        } else {
            None
        },
        _ => None,
    }
}

impl Frame {
    /// The event name of this frame on the wire.
    pub fn event_name(&self) -> (r: String)
        ensures
            r@ == frame_name(self@),
    {
        match self {
            Frame::Ping => String::from_str("ping"),
            Frame::GuildUpdated => String::from_str("guild-updated"),
            Frame::TopicUpdated(id) => String::from_str("topic-updated-").concat(decimal_text(*id).as_str()),
            Frame::TopicDeleted(id) => String::from_str("topic-deleted-").concat(decimal_text(*id).as_str()),
            Frame::TopicCreated(_) => String::from_str("topic-created"),
            Frame::OrderChanged(_) => String::from_str("topics-order-changed"),
        }
    }

    /// The payload of a frame that is not a rendered topic: `ping` for a
    /// keep-alive, the JSON id list for an order change, a blank otherwise.
    pub fn data(&self) -> (r: Option<String>)
        ensures
            self@ is Ping ==> (r matches Some(s) && s@ == "ping"@),
            self@ matches FrameView::OrderChanged(ids) ==> (r matches Some(s) && s@ == json_array(ids)),
            !(self@ is Ping) && !(self@ is OrderChanged) ==> (r matches Some(s) && s@ == " "@),
    {
        match self {
            Frame::Ping => Some(String::from_str("ping")),
            Frame::OrderChanged(ids) => match ids_json(ids) {
                Ok(s) => Some(s),
                Err(_) => None,
            },
            _ => Some(String::from_str(" ")),
        }
    }
}

/// Milliseconds between two keep-alive frames.
pub const HEARTBEAT_INTERVAL_MS: u64 = 5000;

/// One client's live-update session on a guild: a keep-alive schedule racing
/// a filtered relay of application events. The first to fail ends it.
pub struct Session {
    pub guild_id: u64,
    pub next_ping_at: u64,
    pub open: bool,
}

impl Session {
    /// A session opened at `now_ms`: its first keep-alive is due at once.
    pub fn open(guild_id: u64, now_ms: u64) -> (r: Session)
        ensures
            r.guild_id == guild_id,
            r.next_ping_at == now_ms,
            r.open,
    {
        Session { guild_id, next_ping_at: now_ms, open: true }
    }

    /// Whether a keep-alive is due at `now_ms`; when it is, the next one is
    /// scheduled an interval later.
    pub fn on_tick(&mut self, now_ms: u64) -> (r: bool)
        ensures
            r == (old(self).open && now_ms >= old(self).next_ping_at),
            final(self).guild_id == old(self).guild_id,
            final(self).open == old(self).open,
            r ==> final(self).next_ping_at == if now_ms + HEARTBEAT_INTERVAL_MS > u64::MAX {
                u64::MAX
            } else {
                (now_ms + HEARTBEAT_INTERVAL_MS) as u64
            },
            !r ==> final(self).next_ping_at == old(self).next_ping_at,
    {
        if self.open && now_ms >= self.next_ping_at {
            self.next_ping_at = now_ms.saturating_add(HEARTBEAT_INTERVAL_MS);
            true
        } else {
            false
        }
    }

    /// A frame could not be written: the client is gone, the session ends.
    pub fn on_write_failed(&mut self)
        ensures
            !final(self).open,
            final(self).guild_id == old(self).guild_id,
            final(self).next_ping_at == old(self).next_ping_at,
    {
        self.open = false;
    }

    /// The frame this session sends for `event`, if the event concerns it.
    pub fn frame_for(&self, event: &Event) -> (r: Option<Frame>)
        ensures
            match frame_of(self.guild_id, event@) {
                Some(f) => r matches Some(x) && x@ == f,
                None => r is None,
            },
    {
        match event {
            Event::Guild(GuildEvent::Update(g)) => if g.id == self.guild_id {
                Some(Frame::GuildUpdated)
            } else {
                None
            },
            Event::Topic(TopicEvent::Update(t)) => if t.guild_id == self.guild_id {
                Some(Frame::TopicUpdated(t.id))
            } else {
                None
            },
            Event::Topic(TopicEvent::Delete(t)) => if t.guild_id == self.guild_id {
                Some(Frame::TopicDeleted(t.id))
            } else {
                None
            },
            Event::Topic(TopicEvent::Create(t)) => if t.guild_id == self.guild_id {
                Some(Frame::TopicCreated(t.clone()))
            } else {
                None
            },
            Event::Topic(TopicEvent::OrderChange(og, ids)) => if *og == self.guild_id {
                Some(Frame::OrderChanged(ids.clone()))
            } else {
                None
            },
            _ => None,
        }
    }
}

} // verus!
