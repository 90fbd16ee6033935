//! The requests the host sends to the player and the checks it makes on the
//! player's answers: control requests with a JSON body, the three-packet
//! exchange that reads a file from the device, delete confirmations, the
//! track-listing answer to a ping, and the handshake that opens a session.

use vstd::prelude::*;
use vstd::utf8::*;
use crate::frame::{build_message, frame, ack, ack_packet};

verus! {

/// Message type that opens a session.
pub const MSG_CONNECT: u8 = 0x02;
/// Message type that closes a session (no payload).
pub const MSG_DISCONNECT: u8 = 0x03;
/// Message type of control requests.
pub const MSG_CONTROL: u8 = 0x04;

/// Control request for the track listing (the "ping").
pub const CTRL_PING: u8 = 0x03;
/// Control request for the device's storage figures.
pub const CTRL_STORAGE: u8 = 0x02;
/// Control request for an album's config file.
pub const CTRL_REQUEST_ALBUM: u8 = 0x05;
/// Control request for a track's config file.
pub const CTRL_REQUEST_TRACK: u8 = 0x06;
/// Control request that deletes an album.
pub const CTRL_DELETE_ALBUM: u8 = 0x09;
/// Control request that deletes a track.
pub const CTRL_DELETE_TRACK: u8 = 0x0A;
/// Control request sent as the handshake's challenge.
pub const CTRL_CHALLENGE: u8 = 0x12;

/// `{"album":"<album>"}`
pub open spec fn album_json(album: Seq<char>) -> Seq<char> {
    "{\"album\":\""@ + album + "\"}"@
}

/// `{"album":"<album>","track":"<track>"}`
pub open spec fn track_json(album: Seq<char>, track: Seq<char>) -> Seq<char> {
    "{\"album\":\""@ + album + "\",\"track\":\""@ + track + "\"}"@
}

/// A control request: the control byte, the JSON text in UTF-8, a NUL byte.
pub open spec fn control_request(ctrl: u8, json: Seq<char>) -> Seq<u8> {
    frame(MSG_CONTROL, seq![ctrl] + encode_utf8(json) + seq![0u8])
}

/// Builds `{"album":"<album>"}` (the album id is put in as it is).
pub fn album_json_text(album: &str) -> (s: String)
    ensures
        s@ == album_json(album@),
{
    let mut s = String::from_str("{\"album\":\"");
    s.append(album);
    s.append("\"}");
    s
}

/// Builds `{"album":"<album>","track":"<track>"}`.
pub fn track_json_text(album: &str, track: &str) -> (s: String)
    ensures
        s@ == track_json(album@, track@),
{
    let mut s = String::from_str("{\"album\":\"");
    s.append(album);
    s.append("\",\"track\":\"");
    s.append(track);
    s.append("\"}");
    s
}

/// Frames a control request whose body is `json`.
pub fn build_control_request(ctrl: u8, json: &str) -> (msg: Vec<u8>)
    ensures
        msg@ == control_request(ctrl, json@),
{
    let bytes = json.as_bytes();
    let mut payload: Vec<u8> = Vec::new();
    payload.push(ctrl);
    payload.extend_from_slice(bytes);
    payload.push(0x00);
    assert(payload@ =~= seq![ctrl] + encode_utf8(json@) + seq![0u8]);
    build_message(MSG_CONTROL, payload.as_slice())
}

/// The request for an album's config file.
pub fn album_config_request(album: &str) -> (msg: Vec<u8>)
    ensures
        msg@ == control_request(CTRL_REQUEST_ALBUM, album_json(album@)),
{
    let json = album_json_text(album);
    build_control_request(CTRL_REQUEST_ALBUM, json.as_str())
}

/// The request for a track's config file.
pub fn track_config_request(album: &str, track: &str) -> (msg: Vec<u8>)
    ensures
        msg@ == control_request(CTRL_REQUEST_TRACK, track_json(album@, track@)),
{
    let json = track_json_text(album, track);
    build_control_request(CTRL_REQUEST_TRACK, json.as_str())
}

/// The request that deletes an album and all its tracks.
pub fn delete_album_request(album: &str) -> (msg: Vec<u8>)
    ensures
        msg@ == control_request(CTRL_DELETE_ALBUM, album_json(album@)),
{
    let json = album_json_text(album);
    build_control_request(CTRL_DELETE_ALBUM, json.as_str())
}

/// The request that deletes one track.
pub fn delete_track_request(album: &str, track: &str) -> (msg: Vec<u8>)
    ensures
        msg@ == control_request(CTRL_DELETE_TRACK, track_json(album@, track@)),
{
    let json = track_json_text(album, track);
    build_control_request(CTRL_DELETE_TRACK, json.as_str())
}

/// A control request made of the control byte alone.
pub fn bare_control_request(ctrl: u8) -> (msg: Vec<u8>)
    ensures
        msg@ == frame(MSG_CONTROL, seq![ctrl]),
{
    let payload: [u8; 1] = [ctrl];
    assert(payload@ =~= seq![ctrl]);
    build_message(MSG_CONTROL, &payload)
}

/// A message with no payload (connect, disconnect).
pub fn empty_message(msg_type: u8) -> (msg: Vec<u8>)
    ensures
        msg@ == frame(msg_type, Seq::empty()),
{
    let payload: [u8; 0] = [];
    assert(payload@ =~= Seq::<u8>::empty());
    build_message(msg_type, &payload)
}

/// Whether an answer to a delete request confirms it: the device echoes
/// the control message type and the delete's control byte.
pub open spec fn delete_confirmed(resp: Seq<u8>, ctrl: u8) -> bool {
    resp.len() >= 4 && resp[2] == MSG_CONTROL && resp[3] == ctrl
}

/// Checks the device's answer to a delete request.
pub fn is_delete_confirmation(resp: &[u8], ctrl: u8) -> (ok: bool)
    ensures
        ok == delete_confirmed(resp@, ctrl),
{
    resp.len() >= 3 && resp[2] == MSG_CONTROL && resp.len() >= 4 && resp[3] == ctrl
}

/// Whether a packet is a track listing (`[.. .. 05 03 ...]`).
pub open spec fn is_listing(pkt: Seq<u8>) -> bool {
    pkt.len() >= 4 && pkt[2] == 0x05 && pkt[3] == 0x03
}

/// Checks whether the answer to a ping is a track listing.
pub fn is_listing_packet(pkt: &[u8]) -> (ok: bool)
    ensures
        ok == is_listing(pkt@),
{
    pkt.len() >= 4 && pkt[2] == 0x05 && pkt[3] == 0x03
}

/// Where the device-to-host file transfer stands.
#[derive(Debug, PartialEq, Eq, Structural, Clone, Copy)]
pub enum FileReadStage {
    /// The request went out; the device's READY (`[02 00 05 ..]`) is due.
    AwaitReady,
    /// READY was acknowledged; the file header (command `06`) is due.
    AwaitHeader,
    /// The header was acknowledged; the file data (command `07`) is due.
    AwaitData,
}

/// Which packet of the transfer was wrong.
#[derive(Debug, PartialEq, Eq, Structural, Clone, Copy)]
pub enum FileReadError {
    NotReady,
    NotHeader,
    NotData,
}

/// What the host does after a packet of the transfer.
pub enum FileReadStep {
    /// Send the acknowledgement `[01 00 00]` and wait in the given stage.
    SendAck(FileReadStage),
    /// The transfer is over; these are the file's bytes.
    Done(Vec<u8>),
    /// The packet was not the one due.
    Fail(FileReadError),
}

/// The bytes of a file that a data packet carries: everything after its
/// 8-byte header.
pub open spec fn file_data(pkt: Seq<u8>) -> Seq<u8> {
    if pkt.len() > 8 {
        pkt.subrange(8, pkt.len() as int)
    } else {
        Seq::empty()
    }
}

/// Takes the packet that arrived in `stage` and says what comes next.
pub fn file_read_step(stage: FileReadStage, pkt: &[u8]) -> (step: FileReadStep)
    ensures
        stage == FileReadStage::AwaitReady ==> if pkt@.len() >= 3 && pkt@[0] == 0x02 && pkt@[1]
            == 0x00 && pkt@[2] == 0x05 {
            step == FileReadStep::SendAck(FileReadStage::AwaitHeader)
        } else {
            step == FileReadStep::Fail(FileReadError::NotReady)
        },
        stage == FileReadStage::AwaitHeader ==> if pkt@.len() >= 3 && pkt@[2] == 0x06 {
            step == FileReadStep::SendAck(FileReadStage::AwaitData)
        } else {
            step == FileReadStep::Fail(FileReadError::NotHeader)
        },
        stage == FileReadStage::AwaitData ==> if pkt@.len() >= 3 && pkt@[2] == 0x07 {
            step matches FileReadStep::Done(data) && data@ == file_data(pkt@)
        } else {
            step == FileReadStep::Fail(FileReadError::NotData)
        },
{
    match stage {
        FileReadStage::AwaitReady => {
            if pkt.len() < 3 || pkt[0] != 0x02 || pkt[1] != 0x00 || pkt[2] != 0x05 {
                FileReadStep::Fail(FileReadError::NotReady)
            } else {
                FileReadStep::SendAck(FileReadStage::AwaitHeader)
            }
        },
        FileReadStage::AwaitHeader => {
            if pkt.len() < 3 || pkt[2] != 0x06 {
                FileReadStep::Fail(FileReadError::NotHeader)
            } else {
                FileReadStep::SendAck(FileReadStage::AwaitData)
            }
        },
        FileReadStage::AwaitData => {
            if pkt.len() < 3 || pkt[2] != 0x07 {
                FileReadStep::Fail(FileReadError::NotData)
            } else {
                let mut data: Vec<u8> = Vec::new();
                let mut i: usize = 8;
                while i < pkt.len()
                    invariant
                        8 <= i,
                        i <= pkt@.len() || pkt@.len() <= 8,
                        pkt@.len() > 8 ==> data@ == pkt@.subrange(8, i as int),
                        pkt@.len() <= 8 ==> data@ == Seq::<u8>::empty(),
                    decreases pkt@.len() - i,
                {
                    data.push(pkt[i]);
                    i = i + 1;
                    assert(pkt@.subrange(8, i as int) =~= pkt@.subrange(8, i - 1).push(pkt@[i - 1]));
                }
                assert(data@ =~= file_data(pkt@));
                FileReadStep::Done(data)
            }
        },
    }
}

/// How many pings the handshake sends before it gives up on a listing.
pub const CONNECT_ATTEMPTS: u8 = 5;

/// Where the handshake that opens a session stands.
#[derive(Debug, PartialEq, Eq, Structural, Clone, Copy)]
pub enum ConnectState {
    /// Nothing was done yet.
    Start,
    /// Stale packets are being drained from the device.
    Draining,
    /// CONNECT went out; its answer is due.
    AwaitConnectReply,
    /// The challenge went out; its answer is due.
    AwaitChallengeReply,
    /// The handshake's acknowledgement went out.
    AckSent,
    /// Ping number `n` (from 1) went out; its answer is due.
    AwaitPingReply(u8),
    /// Ping number `n` was answered without a listing; the host drains and
    /// waits before it goes on.
    Retrying(u8),
    /// A listing came back: the session is open.
    Connected,
    /// No listing came back after the last ping.
    Failed,
}

/// What the host reports after doing the last action.
pub enum ConnectEvent {
    /// The action (drain, write, drain and wait) is done.
    Finished,
    /// The device answered the message that was sent.
    Reply(Vec<u8>),
}

/// What the host does next in the handshake.
pub enum ConnectAction {
    /// Drain stale packets from the device.
    Drain,
    /// Send this message and read one answer.
    Exchange(Vec<u8>),
    /// Send this message; no answer is read.
    Send(Vec<u8>),
    /// Drain stale packets and wait a moment before the next ping.
    DrainAndWait,
    /// The session is open; this is the listing the device sent.
    Connected(Vec<u8>),
    /// The device did not return a track listing after the last ping.
    Fail,
}

/// Whether the handshake is over.
pub open spec fn connect_over(s: ConnectState) -> bool {
    s is Connected || s is Failed
}

/// Whether a state is one the handshake can be in: ping counts run from 1
/// to the number of attempts.
pub open spec fn connect_state_valid(s: ConnectState) -> bool {
    match s {
        ConnectState::AwaitPingReply(n) => 1 <= n <= CONNECT_ATTEMPTS,
        ConnectState::Retrying(n) => 1 <= n <= CONNECT_ATTEMPTS,
        _ => true,
    }
}

/// Whether a state waits for the device's answer to a message.
pub open spec fn awaits_reply(s: ConnectState) -> bool {
    s is AwaitConnectReply || s is AwaitChallengeReply || s is AwaitPingReply
}

/// Whether `e` is what the host can report in state `s`: an answer where
/// one is due, the end of the action otherwise, in a handshake not yet over.
pub open spec fn connect_accepts(s: ConnectState, e: ConnectEvent) -> bool {
    &&& connect_state_valid(s)
    &&& !connect_over(s)
    &&& (awaits_reply(s) <==> e is Reply)
}

/// The ping request.
pub open spec fn ping_request() -> Seq<u8> {
    frame(MSG_CONTROL, seq![CTRL_PING])
}

impl ConnectState {
    /// Whether the handshake in this state can take the event `e`.
    pub fn accepts(&self, e: &ConnectEvent) -> (b: bool)
        ensures
            b == connect_accepts(*self, *e),
    {
        let reply = match e {
            ConnectEvent::Reply(_) => true,
            ConnectEvent::Finished => false,
        };
        match *self {
            ConnectState::AwaitConnectReply => reply,
            ConnectState::AwaitChallengeReply => reply,
            ConnectState::AwaitPingReply(n) => reply && 1 <= n && n <= CONNECT_ATTEMPTS,
            ConnectState::Retrying(n) => !reply && 1 <= n && n <= CONNECT_ATTEMPTS,
            ConnectState::Connected => false,
            ConnectState::Failed => false,
            _ => !reply,
        }
    }
}

/// One step of the handshake: drain stale packets, send CONNECT, send the
/// challenge (control `0x12`), acknowledge, then ping until the answer is a
/// track listing. An answer that is not a listing is followed by a drain and
/// a wait, then by the next ping; after the last attempt the handshake fails.
/// The answers to CONNECT and to the challenge are read and not looked at.
pub fn connect_step(s: ConnectState, e: ConnectEvent) -> (r: (ConnectState, ConnectAction))
    requires
        connect_accepts(s, e),
    ensures
        connect_state_valid(r.0),
        s is Start ==> r.0 == ConnectState::Draining && r.1 is Drain,
        s is Draining ==> r.0 == ConnectState::AwaitConnectReply && (r.1 matches ConnectAction::Exchange(m)
            && m@ == frame(MSG_CONNECT, Seq::empty())),
        s is AwaitConnectReply ==> r.0 == ConnectState::AwaitChallengeReply && (r.1 matches ConnectAction::Exchange(m)
            && m@ == frame(MSG_CONTROL, seq![CTRL_CHALLENGE])),
        s is AwaitChallengeReply ==> r.0 == ConnectState::AckSent && (r.1 matches ConnectAction::Send(m)
            && m@ == ack()),
        s is AckSent ==> r.0 == ConnectState::AwaitPingReply(1) && (r.1 matches ConnectAction::Exchange(m)
            && m@ == ping_request()),
        s matches ConnectState::AwaitPingReply(n) ==> (e matches ConnectEvent::Reply(p) && if is_listing(p@) {
            r.0 == ConnectState::Connected && (r.1 matches ConnectAction::Connected(l) && l@ == p@)
        } else {
            r.0 == ConnectState::Retrying(n) && r.1 is DrainAndWait
        }),
        s matches ConnectState::Retrying(n) ==> if n < CONNECT_ATTEMPTS {
            r.0 == ConnectState::AwaitPingReply((n + 1) as u8) && (r.1 matches ConnectAction::Exchange(m)
                && m@ == ping_request())
        } else {
            r.0 == ConnectState::Failed && r.1 is Fail
        },
{
    match s {
        ConnectState::Start => (ConnectState::Draining, ConnectAction::Drain),
        ConnectState::Draining => (ConnectState::AwaitConnectReply, ConnectAction::Exchange(empty_message(MSG_CONNECT))),
        ConnectState::AwaitConnectReply => (
            ConnectState::AwaitChallengeReply,
            ConnectAction::Exchange(bare_control_request(CTRL_CHALLENGE)),
        ),
        ConnectState::AwaitChallengeReply => (ConnectState::AckSent, ConnectAction::Send(ack_packet())),
        ConnectState::AckSent => (ConnectState::AwaitPingReply(1), ConnectAction::Exchange(bare_control_request(CTRL_PING))),
        ConnectState::AwaitPingReply(n) => match e {
            ConnectEvent::Reply(p) => {
                if is_listing_packet(p.as_slice()) {
                    (ConnectState::Connected, ConnectAction::Connected(p))
                } else {
                    (ConnectState::Retrying(n), ConnectAction::DrainAndWait)
                }
            },
            ConnectEvent::Finished => (ConnectState::Failed, ConnectAction::Fail),
        },
        ConnectState::Retrying(n) => {
            if n < CONNECT_ATTEMPTS {
                (ConnectState::AwaitPingReply(n + 1), ConnectAction::Exchange(bare_control_request(CTRL_PING)))
            } else {
                (ConnectState::Failed, ConnectAction::Fail)
            }
        },
        ConnectState::Connected => (ConnectState::Connected, ConnectAction::Fail),
        ConnectState::Failed => (ConnectState::Failed, ConnectAction::Fail),
    }
}

} // verus!
