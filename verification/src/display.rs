//! The one-line text by which a node shows a message it sends or receives.

use vstd::prelude::*;
use crate::addr::{addr_text, push_addr};
use crate::text::{clock_text, decimal, fmt_time, push_decimal, push_str};
use crate::types::{Headers, HeadersView, Message, MessageView, Payload, PayloadView};

verus! {

/// `src (name) -> dst (name) (#id - HH:MM:SS)`.
pub open spec fn headers_text(h: HeadersView) -> Seq<char> {
    addr_text(h.src_addr) + " ("@ + h.src_username + ") -> "@ + addr_text(h.dst_addr) + " ("@
        + h.dst_username + ") (#"@ + decimal(h.msg_id as nat) + " - "@ + clock_text(h.time as nat)
        + ")"@
}

/// `[Kind] [headers]`, followed by what the payload carries where it
/// carries something worth showing.
pub open spec fn message_text(m: MessageView) -> Seq<char> {
    let h = headers_text(m.headers);
    match m.payload {
        PayloadView::Register { .. } => "[Register] ["@ + h + "]"@,
        PayloadView::Connect => "[Connect] ["@ + h + "]"@,
        PayloadView::AskForAddr { username } => "[AskForAddr] ["@ + h + "] He asks for "@ + username
            + "'s addr"@,
        PayloadView::PeerInfo { peer_info } => "[PeerInfo] ["@ + h + "] "@ + addr_text(peer_info.addr)
            + " ("@ + peer_info.username + ")"@,
        PayloadView::Classic { txt } => "[Classic] ["@ + h + "] \""@ + txt + "\""@,
        PayloadView::BeNewRelay { .. } => "[BeNewRelay] ["@ + h + "]"@,
        PayloadView::NeedRelay => "[NeedRelay] ["@ + h + "]"@,
        PayloadView::Ack { reply_to } => "[Ack] ["@ + h + "] reply_to=#"@ + decimal(reply_to as nat),
        PayloadView::RelayHasNewClient { peer_addr, peer_id } => "[RelayHasNewClient] ["@ + h + "] "@
            + addr_text(peer_addr) + " ("@ + peer_id + ") wants to connect to you as relay"@,
        PayloadView::NoRelayAvailable => "[NoRelayAvailable] ["@ + h + "]"@,
        PayloadView::PunchTheHole => "[PunchTheHole] ["@ + h + "]"@,
    }
}

impl Headers {
    /// Appends the text of the headers.
    pub fn push_text(&self, s: &mut String)
        ensures
            final(s)@ == old(s)@ + headers_text(self@),
    {
        push_addr(s, &self.src_addr);
        push_str(s, " (");
        push_str(s, self.src_username.as_str());
        push_str(s, ") -> ");
        push_addr(s, &self.dst_addr);
        push_str(s, " (");
        push_str(s, self.dst_username.as_str());
        push_str(s, ") (#");
        push_decimal(s, self.msg_id);
        push_str(s, " - ");
        let clock = fmt_time(self.time);
        push_str(s, clock.as_str());
        push_str(s, ")");
        assert(final(s)@ =~= old(s)@ + headers_text(self@));
    }

    /// The text of the headers.
    pub fn to_text(&self) -> (t: String)
        ensures
            t@ == headers_text(self@),
    {
        let mut t = String::new();
        self.push_text(&mut t);
        assert(t@ =~= headers_text(self@));
        t
    }
}

impl Message {
    /// The one-line text of the message.
    pub fn to_text(&self) -> (t: String)
        ensures
            t@ == message_text(self@),
    {
        let h = self.headers.to_text();
        let mut t = String::new();
        match &self.payload {
            Payload::Register { .. } => {
                push_str(&mut t, "[Register] [");
                push_str(&mut t, h.as_str());
                push_str(&mut t, "]");
            },
            Payload::Connect => {
                push_str(&mut t, "[Connect] [");
                push_str(&mut t, h.as_str());
                push_str(&mut t, "]");
            },
            Payload::AskForAddr { username } => {
                push_str(&mut t, "[AskForAddr] [");
                push_str(&mut t, h.as_str());
                push_str(&mut t, "] He asks for ");
                push_str(&mut t, username.as_str());
                push_str(&mut t, "'s addr");
            },
            Payload::PeerInfo { peer_info } => {
                push_str(&mut t, "[PeerInfo] [");
                push_str(&mut t, h.as_str());
                push_str(&mut t, "] ");
                push_addr(&mut t, &peer_info.addr);
                push_str(&mut t, " (");
                push_str(&mut t, peer_info.username.as_str());
                push_str(&mut t, ")");
            },
            Payload::Classic { txt } => {
                push_str(&mut t, "[Classic] [");
                push_str(&mut t, h.as_str());
                push_str(&mut t, "] \"");
                push_str(&mut t, txt.as_str());
                push_str(&mut t, "\"");
            },
            Payload::BeNewRelay { .. } => {
                push_str(&mut t, "[BeNewRelay] [");
                push_str(&mut t, h.as_str());
                push_str(&mut t, "]");
            },
            Payload::NeedRelay => {
                push_str(&mut t, "[NeedRelay] [");
                push_str(&mut t, h.as_str());
                push_str(&mut t, "]");
            },
            Payload::Ack { reply_to } => {
                push_str(&mut t, "[Ack] [");
                push_str(&mut t, h.as_str());
                push_str(&mut t, "] reply_to=#");
                push_decimal(&mut t, *reply_to);
            },
            Payload::RelayHasNewClient { peer_addr, peer_id } => {
                push_str(&mut t, "[RelayHasNewClient] [");
                push_str(&mut t, h.as_str());
                push_str(&mut t, "] ");
                push_addr(&mut t, peer_addr);
                push_str(&mut t, " (");
                push_str(&mut t, peer_id.as_str());
                push_str(&mut t, ") wants to connect to you as relay");
            },
            Payload::NoRelayAvailable => {
                push_str(&mut t, "[NoRelayAvailable] [");
                push_str(&mut t, h.as_str());
                push_str(&mut t, "]");
            },
            Payload::PunchTheHole => {
                push_str(&mut t, "[PunchTheHole] [");
                push_str(&mut t, h.as_str());
                push_str(&mut t, "]");
            },
        }
        assert(t@ =~= message_text(self@));
        t
    }
}

} // verus!
