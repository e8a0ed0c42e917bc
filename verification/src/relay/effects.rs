//! What the relay does with a frame, by what the frame says and what is stored.
use crate::numbers::{dec, law_decimal_reads_back, nat_of};
use crate::order::{ascends, lemma_ascends_front};
use crate::relay::base64::{b64_bytes, b64_text};
use crate::relay::hub::{is_lower_hex, is_vault_id, quota_of, quotas_of};
use crate::relay::log::{
    appended, compact_refused, covered, is_stale_dir, line_text, parts_dir, stale_from, tail_from,
    upload_cap, LineView, LogState, PartDir, Refusal, StoreView, StoredView,
};
use crate::relay::session::{
    caps_named, compact_step, greeting_refused, part_frame_of, part_step, presence_step, push_step,
    SessionView, StepView,
};
use crate::relay::wire::{ClientMsg, PartMsg, ReplyView};
use crate::text::{has_prefix, utf8_len};
use vstd::prelude::*;

verus! {

// ---------------------------------------------------------------------------
// Greeting
// ---------------------------------------------------------------------------

/// A client has the capabilities that it names, each by its own name.
pub proof fn law_capabilities_go_by_name(list: Seq<Seq<char>>)
    ensures
        caps_named(list).presence <==> exists|k: int|
            0 <= k < list.len() && #[trigger] list[k] == "presence"@,
        caps_named(list).compact <==> exists|k: int|
            0 <= k < list.len() && #[trigger] list[k] == "compact"@,
        caps_named(list).compact2 <==> exists|k: int|
            0 <= k < list.len() && #[trigger] list[k] == "compact2"@,
        caps_named(list).quota <==> exists|k: int|
            0 <= k < list.len() && #[trigger] list[k] == "quota"@,
{
}

/// A session begins with a greeting for a vault: the first frame is let in exactly where
/// it is one, and the id of the vault is 32 lower-case hexadecimal digits.
pub proof fn law_a_session_begins_with_a_greeting(first: Option<ClientMsg>)
    ensures
        greeting_refused(first) is None <==> (first matches Some(ClientMsg::Hello(h)) && {
            &&& h.vault_id@.len() == 32
            &&& forall|i: int|
                0 <= i < 32 ==> '0' <= #[trigger] h.vault_id@[i] <= '9' || 'a' <= h.vault_id@[i]
                    <= 'f'
        }),
{
    if let Some(ClientMsg::Hello(h)) = first {
        let id = h.vault_id@;
        if is_vault_id(id) {
            assert forall|i: int| 0 <= i < 32 implies '0' <= #[trigger] id[i] <= '9' || 'a' <= id[i]
                <= 'f' by {
                assert(is_lower_hex(id[i]));
            }
        }
    }
}

// ---------------------------------------------------------------------------
// Pushing
// ---------------------------------------------------------------------------

/// A push is stored or refused: a blob that cannot be read is refused; one that comes
/// where the log has reached its quota is refused with the code that the client knows;
/// any other becomes the next entry, with the number after the last, the time and the
/// bytes of the blob.
pub proof fn law_a_push_is_stored_or_refused(
    s: SessionView,
    st: LogState,
    blob: Seq<char>,
    quota: u64,
    ts: u64,
)
    ensures
        b64_bytes(blob) is None ==> (push_step(s, st, blob, quota, ts) matches StepView::Reply(
            ReplyView::Error(code, _),
        ) && code == "protocol"@),
        b64_bytes(blob) is Some && st.size >= quota ==> (push_step(s, st, blob, quota, ts) matches StepView::Reply(
            ReplyView::Error(code, _),
        ) && (s.caps.quota ==> code == "quota_exceeded"@) && (!s.caps.quota ==> code == "log_full"@)),
        b64_bytes(blob) is Some && st.size < quota && st.last_seq < u64::MAX ==> (push_step(
            s,
            st,
            blob,
            quota,
            ts,
        ) matches StepView::Append(l, bytes) && l.seq == st.last_seq + 1 && l.ts == ts && Some(bytes)
            == b64_bytes(blob) && l.blob == b64_text(bytes)),
{
}

/// An entry makes the log larger by its text and a line feed, as far as it can be
/// counted, comes last, and leaves what was there.
pub proof fn law_an_entry_is_added_at_the_end(
    st: LogState,
    l: LineView,
)
    ensures
        ({
            let after = appended(st, l);
            &&& after.lines.len() == st.lines.len() + 1
            &&& after.lines.take(st.lines.len() as int) == st.lines
            &&& after.lines[st.lines.len() as int].line == Some(l)
            &&& after.lines[st.lines.len() as int].text == line_text(l)
            &&& after.last_seq == l.seq
            &&& after.snapshot == st.snapshot
            &&& st.size + utf8_len(line_text(l)) + 1 <= u64::MAX ==> after.size == st.size + utf8_len(
                line_text(l),
            ) + 1
            &&& after.size >= st.size
        }),
{
    let after = appended(st, l);
    assert(after.lines.take(st.lines.len() as int) =~= st.lines);
}

/// Presence is handed on up to its largest size, as it is.
pub proof fn law_presence_is_handed_on(blob: Seq<char>)
    ensures
        utf8_len(blob) <= 8192 ==> presence_step(blob)
            == StepView::FanPresence(blob),
        utf8_len(blob) > 8192 ==> presence_step(blob)
            is Reply,
{
}

// ---------------------------------------------------------------------------
// Compacting
// ---------------------------------------------------------------------------

/// What a compaction must be: above what the snapshot covers, and not above what was
/// given out. Nothing else stands against its reach.
pub proof fn law_a_snapshot_reaches_into_the_log(st: LogState, upto: u64)
    ensures
        compact_refused(st, upto) is None <==> covered(st.snapshot) < upto <= st.last_seq,
        compact_refused(st, upto) == Some(Refusal::Stale) <==> upto <= covered(st.snapshot),
        compact_refused(st, upto) == Some(Refusal::Ahead) <==> upto > st.last_seq && upto > covered(
            st.snapshot,
        ),
{
}

/// A snapshot in one frame is published as it was sent, where its blob can be read, it is
/// no larger than a snapshot may be nor than the quota, and reaches into the log. Else
/// the client is told why.
pub proof fn law_a_snapshot_is_published_as_sent(
    st: LogState,
    upto: u64,
    blob: Seq<char>,
    quota: u64,
)
    ensures
        compact_step(st, upto, blob, quota) is Publish <==> b64_bytes(blob) is Some && b64_bytes(
            blob,
        )->0.len() <= 32 * 1024 * 1024 && b64_bytes(blob)->0.len() <= quota
            && covered(st.snapshot) < upto <= st.last_seq,
        compact_step(st, upto, blob, quota) matches StepView::Publish(snap) ==> snap.seq == upto
            && snap.store == StoreView::Inline(b64_bytes(blob)->0),
        compact_step(st, upto, blob, quota) is Publish || compact_step(st, upto, blob, quota) is Reply,
{
}

proof fn lemma_tail_has(ls: Seq<StoredView>, upto: u64, i: int) -> (at: Seq<int>)
    requires
        0 <= i <= ls.len(),
    ensures
        at.len() == tail_from(ls, upto, i).len(),
        ascends(at),
        forall|a: int|
            0 <= a < at.len() ==> i <= #[trigger] at[a] < ls.len() && ls[at[a]].line is Some
                && ls[at[a]].line->0.seq > upto && tail_from(ls, upto, i)[a] == ls[at[a]],
        forall|p: int|
            i <= p < ls.len() && (#[trigger] ls[p]).line is Some && ls[p].line->0.seq > upto
                ==> at.contains(p),
    decreases ls.len() - i,
{
    if i < ls.len() {
        let rest = lemma_tail_has(ls, upto, i + 1);
        if ls[i].line is Some && ls[i].line->0.seq > upto {
            let at = seq![i] + rest;
            lemma_ascends_front(i, rest);
            assert(tail_from(ls, upto, i) == seq![ls[i]] + tail_from(ls, upto, i + 1));
            assert forall|a: int| 0 <= a < at.len() implies i <= #[trigger] at[a] < ls.len()
                && ls[at[a]].line is Some && ls[at[a]].line->0.seq > upto && tail_from(
                ls,
                upto,
                i,
            )[a] == ls[at[a]] by {
                if a > 0 {
                    assert(at[a] == rest[a - 1]);
                }
            }
            assert forall|p: int|
                i <= p < ls.len() && (#[trigger] ls[p]).line is Some && ls[p].line->0.seq
                    > upto implies at.contains(p) by {
                if p == i {
                    assert(at[0] == p);
                } else {
                    assert(rest.contains(p));
                    let a = choose|a: int| 0 <= a < rest.len() && rest[a] == p;
                    assert(at[a + 1] == p);
                }
            }
            at
        } else {
            assert(tail_from(ls, upto, i) =~= tail_from(ls, upto, i + 1));
            rest
        }
    } else {
        seq![]
    }
}

/// A compaction keeps exactly the lines above the snapshot, as they are and in their
/// order: `at` says which of the lines they were.
pub proof fn law_a_compaction_keeps_what_lies_above(ls: Seq<StoredView>, upto: u64) -> (at: Seq<int>)
    ensures
        at.len() == tail_from(ls, upto, 0).len(),
        ascends(at),
        forall|a: int|
            0 <= a < at.len() ==> 0 <= #[trigger] at[a] < ls.len() && tail_from(ls, upto, 0)[a]
                == ls[at[a]],
        forall|p: int|
            0 <= p < ls.len() ==> (at.contains(p) <==> (#[trigger] ls[p]).line is Some
                && ls[p].line->0.seq > upto),
{
    let at = lemma_tail_has(ls, upto, 0);
    assert forall|p: int| 0 <= p < ls.len() implies (at.contains(p) <==> (#[trigger] ls[p]).line
        is Some && ls[p].line->0.seq > upto) by {
        if at.contains(p) {
            let a = choose|a: int| 0 <= a < at.len() && at[a] == p;
            assert(ls[at[a]].line is Some);
        }
    }
    at
}

/// An upload in parts takes them in their order: the first opens it, each other is the
/// one after the last of the same offer, and the upload is complete with its last. A part
/// is no larger than a snapshot may be, and all together no larger than the quota nor
/// than an upload may be. A part that breaks the order ends the upload.
pub proof fn law_parts_come_in_order(s: SessionView, st: LogState, p: PartMsg, quota: u64)
    ensures
        part_step(s, st, p, quota).1 matches StepView::StorePart(opens, idx, bytes, complete) ==> {
            let up = part_step(s, st, p, quota).0.staging;
            let before: int = match s.staging {
                Some(x) => x.total_bytes as int,
                None => 0,
            };
            &&& Some(bytes) == b64_bytes(p.blob@)
            &&& idx == p.idx
            &&& opens <==> s.staging is None
            &&& opens ==> p.idx == 0 && p.of > 0 && covered(st.snapshot) < p.upto_seq <= st.last_seq
            &&& s.staging matches Some(x) ==> p.idx == x.next_idx && p.upto_seq == x.upto_seq
                && p.of == x.of
            &&& bytes.len() <= 32 * 1024 * 1024
            &&& up is Some && up->0.upto_seq == p.upto_seq && up->0.of == p.of
            &&& p.idx < p.of
            &&& up->0.next_idx == p.idx + 1
            &&& opens ==> up->0.cap == upload_cap(quota)
            &&& s.staging matches Some(x) ==> up->0.cap == x.cap
            &&& before + bytes.len() <= up->0.cap
            &&& up->0.total_bytes == before + bytes.len()
            &&& complete <==> p.idx + 1 == p.of
        },
        (s.staging matches Some(x) && (p.idx != x.next_idx || p.upto_seq != x.upto_seq || p.of
            != x.of)) ==> part_step(s, st, p, quota).1 is Reply && part_step(
            s,
            st,
            p,
            quota,
        ).0.staging is None,
        s.staging is None && p.idx != 0 ==> part_step(s, st, p, quota).1 is Reply,
        upload_cap(quota) <= quota,
        upload_cap(quota) <= 512 * 1024 * 1024,
        upload_cap(quota) == quota || upload_cap(quota) == 512 * 1024 * 1024,
{
}

/// A snapshot of one part goes out as a whole, any other part by part, each with its
/// number, their count and its bytes.
pub proof fn law_a_part_goes_out_with_its_number(seq: u64, parts: u32, idx: u32, bytes: Seq<u8>)
    ensures
        parts == 1 ==> part_frame_of(seq, parts, idx, bytes) == ReplyView::Snapshot(
            seq,
            b64_text(bytes),
        ),
        parts != 1 ==> part_frame_of(seq, parts, idx, bytes) == ReplyView::SnapshotPart(
            seq,
            idx,
            parts,
            b64_text(bytes),
        ),
{
}

proof fn lemma_stale_has(dirs: Seq<PartDir>, keep: u64, i: int, name: Seq<char>)
    requires
        0 <= i,
    ensures
        stale_from(dirs, keep, i).contains(name) <==> exists|k: int|
            i <= k < dirs.len() && (#[trigger] dirs[k]).name@ == name && is_stale_dir(
                name,
                keep,
                true,
            ),
    decreases dirs.len() - i,
{
    if i < dirs.len() {
        lemma_stale_has(dirs, keep, i + 1, name);
        let rest = stale_from(dirs, keep, i + 1);
        let first = dirs[i].name@;
        if is_stale_dir(first, keep, true) {
            let all = seq![first] + rest;
            assert(all[0] == first);
            if rest.contains(name) {
                let a = choose|a: int| 0 <= a < rest.len() && rest[a] == name;
                assert(all[a + 1] == name);
            }
            if all.contains(name) && name != first {
                let a = choose|a: int| 0 <= a < all.len() && all[a] == name;
                assert(rest[a - 1] == name);
            }
        }
        if first == name {
            assert(dirs[i].name@ == name);
        }
    }
}

/// What is swept when a vault is opened: of the directories that are there, the parts of
/// every other snapshot and every upload that was under way. The parts of the snapshot
/// that counts stay.
pub proof fn law_leftovers_are_swept(dirs: Seq<PartDir>, keep: u64, k: int)
    requires
        0 <= k < dirs.len(),
    ensures
        dirs[k].name@ == parts_dir(keep) ==> !stale_from(dirs, keep, 0).contains(dirs[k].name@),
        forall|other: u64|
            other != keep && dirs[k].name@ == #[trigger] parts_dir(other) ==> stale_from(
                dirs,
                keep,
                0,
            ).contains(dirs[k].name@),
        has_prefix(dirs[k].name@, "snapshot.staging."@) && !has_prefix(
            dirs[k].name@,
            "snapshot.parts."@,
        ) ==> stale_from(dirs, keep, 0).contains(dirs[k].name@),
        !has_prefix(dirs[k].name@, "snapshot.staging."@) && !has_prefix(
            dirs[k].name@,
            "snapshot.parts."@,
        ) ==> !stale_from(dirs, keep, 0).contains(dirs[k].name@),
{
    let name = dirs[k].name@;
    lemma_stale_has(dirs, keep, 0, name);
    let p = "snapshot.parts."@;
    assert forall|seq: u64| name == #[trigger] parts_dir(seq) implies has_prefix(name, p)
        && nat_of(name.skip(p.len() as int)) == Some(seq as nat) by {
        let d = dec(seq as nat);
        assert((p + d).subrange(0, p.len() as int) =~= p);
        assert((p + d).skip(p.len() as int) =~= d);
        law_decimal_reads_back(seq as nat);
    }
}

// ---------------------------------------------------------------------------
// Quotas
// ---------------------------------------------------------------------------

/// The quota of a vault is what the last entry of its name says, and the default where
/// none names it.
pub proof fn law_the_last_entry_of_a_vault_counts(
    v: Seq<(String, u64)>,
    n: int,
    k: int,
    id: Seq<char>,
    default: u64,
)
    requires
        0 <= k < n <= v.len(),
        v[k].0@ == id,
        forall|j: int| k < j < n ==> (#[trigger] v[j]).0@ != id,
    ensures
        quota_of(quotas_of(v, n), id, default) == v[k].1,
    decreases n,
{
    if n - 1 > k {
        assert(v[n - 1].0@ != id);
        law_the_last_entry_of_a_vault_counts(v, n - 1, k, id, default);
    }
}

/// A vault that no entry names has the default quota.
pub proof fn law_an_unnamed_vault_has_the_default(
    v: Seq<(String, u64)>,
    n: int,
    id: Seq<char>,
    default: u64,
)
    requires
        0 <= n <= v.len(),
        forall|j: int| 0 <= j < n ==> (#[trigger] v[j]).0@ != id,
    ensures
        quota_of(quotas_of(v, n), id, default) == default,
    decreases n,
{
    if n > 0 {
        assert(v[n - 1].0@ != id);
        law_an_unnamed_vault_has_the_default(v, n - 1, id, default);
    }
}

} // verus!
