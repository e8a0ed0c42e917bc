//! The messages between clients and the relay.
use crate::text::texts;
use vstd::prelude::*;
use vstd::string::*;

verus! {

/// The longest blob of a presence frame, in bytes of base64.
pub const PRESENCE_MAX_B64_LEN: usize = 8192;

/// What a client sends.
#[derive(Debug)]
pub enum ClientMsg {
    Hello(Hello),
    /// A sealed update, in base64.
    Push(String),
    /// A sealed presence blob: fanned out, never stored.
    Presence(String),
    /// A sealed snapshot of all up to a number.
    Compact(u64, String),
    /// One part of a chunked snapshot.
    CompactPart(PartMsg),
}

/// The first message of a client.
#[derive(Debug)]
pub struct Hello {
    pub vault_id: String,
    pub token: String,
    pub since_seq: u64,
    pub caps: Vec<String>,
}

/// One part of a chunked snapshot that covers all up to `upto_seq`.
#[derive(Debug)]
pub struct PartMsg {
    pub upto_seq: u64,
    pub idx: u32,
    pub of: u32,
    pub blob: String,
}

/// What the relay sends. Blobs are in base64.
#[derive(Debug)]
pub enum ServerMsg {
    Welcome(Welcome),
    /// The number and the blob of an update.
    Update(u64, String),
    Ack(u64),
    /// The code and the text of an error.
    Error(String, String),
    Presence(String),
    /// How far the snapshot reaches, and its blob.
    Snapshot(u64, String),
    SnapshotPart(PartMsg),
    Compacted(u64),
}

/// The answer to a hello.
#[derive(Debug)]
pub struct Welcome {
    pub latest_seq: u64,
    pub caps: Vec<String>,
    pub log_bytes: u64,
    pub quota_bytes: u64,
}

/// The model of what the relay sends.
#[verifier::ext_equal]
pub enum ReplyView {
    /// The last number, the capabilities, the size of the log and the quota.
    Welcome(u64, Seq<Seq<char>>, u64, u64),
    Update(u64, Seq<char>),
    Ack(u64),
    Error(Seq<char>, Seq<char>),
    Presence(Seq<char>),
    Snapshot(u64, Seq<char>),
    /// The reach, the index, the number of parts and the blob.
    SnapshotPart(u64, u32, u32, Seq<char>),
    Compacted(u64),
}

impl View for ServerMsg {
    type V = ReplyView;

    open spec fn view(&self) -> ReplyView {
        match self {
            ServerMsg::Welcome(w) => ReplyView::Welcome(
                w.latest_seq,
                texts(w.caps@),
                w.log_bytes,
                w.quota_bytes,
            ),
            ServerMsg::Update(seq, blob) => ReplyView::Update(*seq, blob@),
            ServerMsg::Ack(seq) => ReplyView::Ack(*seq),
            ServerMsg::Error(code, msg) => ReplyView::Error(code@, msg@),
            ServerMsg::Presence(blob) => ReplyView::Presence(blob@),
            ServerMsg::Snapshot(upto, blob) => ReplyView::Snapshot(*upto, blob@),
            ServerMsg::SnapshotPart(p) => ReplyView::SnapshotPart(p.upto_seq, p.idx, p.of, p.blob@),
            ServerMsg::Compacted(upto) => ReplyView::Compacted(*upto),
        }
    }
}

pub open spec fn replies_view(v: Seq<ServerMsg>) -> Seq<ReplyView> {
    v.map_values(|m: ServerMsg| m@)
}

/// What the relay can do beyond the first version of the protocol.
pub open spec fn relay_caps() -> Seq<Seq<char>> {
    seq!["presence"@, "compact"@, "compact2"@, "quota"@]
}

/// The capabilities that every welcome names.
pub fn capabilities() -> (r: Vec<String>)
    ensures
        texts(r@) == relay_caps(),
{
    let mut out: Vec<String> = Vec::new();
    out.push("presence".to_owned());
    out.push("compact".to_owned());
    out.push("compact2".to_owned());
    out.push("quota".to_owned());
    assert(texts(out@) =~= relay_caps());
    out
}

/// An error message.
pub(crate) fn err(code: &str, msg: &str) -> (r: ServerMsg)
    ensures
        r@ == ReplyView::Error(code@, msg@),
{
    ServerMsg::Error(code.to_owned(), msg.to_owned())
}

} // verus!
