//! The statistics reducer: folds a batch of frames into per-process byte counts.
use vstd::prelude::*;

use crate::analyze::Frame;
use crate::sys_info::{PortMap, ProtocolPort, UNKNOWN_PID};

verus! {

/// Bytes uploaded and downloaded by one process in one sampling window.
#[derive(Clone, Copy, Debug, PartialEq, Eq, Structural)]
pub struct ProcessPacketLength {
    pub pid: u32,
    pub upload_length: usize,
    pub download_length: usize,
}

/// The result of one sample: the per-process counts, the bytes of the whole window in
/// each direction, and the milliseconds since the previous sample.
#[derive(Clone, Debug)]
pub struct ProcessStatistics {
    pub list: Vec<ProcessPacketLength>,
    pub total_upload: u64,
    pub total_download: u64,
    pub elapse_millisecond: u64,
}

/// The bytes a frame adds to one direction: its length if it goes that way, else nothing.
pub open spec fn direction_bytes(f: Frame, upload: bool) -> nat {
    if f.is_upload == upload {
        f.data_length as nat
    } else {
        0
    }
}

/// The process that a port map gives a frame, or the unknown pid when its key is absent.
pub open spec fn owner(f: Frame, m: Map<ProtocolPort, u32>) -> u32 {
    if m.contains_key(f.key()) {
        m[f.key()]
    } else {
        UNKNOWN_PID
    }
}

/// Whether a frame is billed: always when unknown owners are kept, else only when it has
/// a known owner.
pub open spec fn counted(f: Frame, m: Map<ProtocolPort, u32>, include_unknown: bool) -> bool {
    include_unknown || owner(f, m) != UNKNOWN_PID
}

/// The bytes billed to `pid` in one direction over a batch.
pub open spec fn pid_bytes(
    frames: Seq<Frame>,
    m: Map<ProtocolPort, u32>,
    include_unknown: bool,
    pid: u32,
    upload: bool,
) -> nat
    decreases frames.len(),
{
    if frames.len() == 0 {
        0
    } else {
        let f = frames.last();
        pid_bytes(frames.drop_last(), m, include_unknown, pid, upload) + if counted(
            f,
            m,
            include_unknown,
        ) && owner(f, m) == pid {
            direction_bytes(f, upload)
        } else {
            0
        }
    }
}

/// The billed processes of a batch, each once, in the order of their first frame.
pub open spec fn pids_seen(frames: Seq<Frame>, m: Map<ProtocolPort, u32>, include_unknown: bool) -> Seq<
    u32,
>
    decreases frames.len(),
{
    if frames.len() == 0 {
        Seq::empty()
    } else {
        let prev = pids_seen(frames.drop_last(), m, include_unknown);
        let f = frames.last();
        if counted(f, m, include_unknown) && !prev.contains(owner(f, m)) {
            prev.push(owner(f, m))
        } else {
            prev
        }
    }
}

/// A count, capped at the largest `usize`.
pub open spec fn saturate(n: nat) -> usize {
    if n > usize::MAX {
        usize::MAX
    } else {
        n as usize
    }
}

/// The entry of `pid` in the reduction of a batch.
pub open spec fn entry_for(
    frames: Seq<Frame>,
    m: Map<ProtocolPort, u32>,
    include_unknown: bool,
    pid: u32,
) -> ProcessPacketLength {
    ProcessPacketLength {
        pid,
        upload_length: saturate(pid_bytes(frames, m, include_unknown, pid, true)),
        download_length: saturate(pid_bytes(frames, m, include_unknown, pid, false)),
    }
}

/// The entries of the given processes in the reduction of a batch.
pub open spec fn entries_of(
    frames: Seq<Frame>,
    m: Map<ProtocolPort, u32>,
    include_unknown: bool,
    pids: Seq<u32>,
) -> Seq<ProcessPacketLength> {
    Seq::new(pids.len(), |i: int| entry_for(frames, m, include_unknown, pids[i]))
}

/// The reduction of a batch: one entry per billed process, in order of first appearance.
pub open spec fn reduce_model(
    frames: Seq<Frame>,
    m: Map<ProtocolPort, u32>,
    include_unknown: bool,
) -> Seq<ProcessPacketLength> {
    entries_of(frames, m, include_unknown, pids_seen(frames, m, include_unknown))
}

/// The bytes of a whole batch in one direction.
pub open spec fn batch_bytes(frames: Seq<Frame>, upload: bool) -> nat
    decreases frames.len(),
{
    if frames.len() == 0 {
        0
    } else {
        batch_bytes(frames.drop_last(), upload) + direction_bytes(frames.last(), upload)
    }
}

/// The bytes of the billed frames of a batch in one direction.
pub open spec fn counted_bytes(
    frames: Seq<Frame>,
    m: Map<ProtocolPort, u32>,
    include_unknown: bool,
    upload: bool,
) -> nat
    decreases frames.len(),
{
    if frames.len() == 0 {
        0
    } else {
        counted_bytes(frames.drop_last(), m, include_unknown, upload) + if counted(
            frames.last(),
            m,
            include_unknown,
        ) {
            direction_bytes(frames.last(), upload)
        } else {
            0
        }
    }
}

/// The sum of one direction's counts over a list of entries.
pub open spec fn entries_bytes(s: Seq<ProcessPacketLength>, upload: bool) -> nat
    decreases s.len(),
{
    if s.len() == 0 {
        0
    } else {
        entries_bytes(s.drop_last(), upload) + if upload {
            s.last().upload_length as nat
        } else {
            s.last().download_length as nat
        }
    }
}

/// The bytes billed to the given processes, summed.
pub open spec fn pids_total(
    frames: Seq<Frame>,
    m: Map<ProtocolPort, u32>,
    include_unknown: bool,
    pids: Seq<u32>,
    upload: bool,
) -> nat
    decreases pids.len(),
{
    if pids.len() == 0 {
        0
    } else {
        pids_total(frames, m, include_unknown, pids.drop_last(), upload) + pid_bytes(
            frames,
            m,
            include_unknown,
            pids.last(),
            upload,
        )
    }
}

proof fn lemma_pids_seen(frames: Seq<Frame>, m: Map<ProtocolPort, u32>, include_unknown: bool)
    ensures
        pids_seen(frames, m, include_unknown).no_duplicates(),
        forall|k: int|
            0 <= k < pids_seen(frames, m, include_unknown).len() ==> include_unknown
                || #[trigger] pids_seen(frames, m, include_unknown)[k] != UNKNOWN_PID,
        forall|p: u32, upload: bool|
            !pids_seen(frames, m, include_unknown).contains(p) ==> #[trigger] pid_bytes(
                frames,
                m,
                include_unknown,
                p,
                upload,
            ) == 0,
    decreases frames.len(),
{
    if frames.len() > 0 {
        lemma_pids_seen(frames.drop_last(), m, include_unknown);
        let prev = pids_seen(frames.drop_last(), m, include_unknown);
        let cur = pids_seen(frames, m, include_unknown);
        assert forall|p: u32, upload: bool| !cur.contains(p) implies #[trigger] pid_bytes(
            frames,
            m,
            include_unknown,
            p,
            upload,
        ) == 0 by {
            let f = frames.last();
            if prev.contains(p) {
                let k = choose|k: int| 0 <= k < prev.len() && prev[k] == p;
                assert(cur[k] == p);
            }
            if counted(f, m, include_unknown) && owner(f, m) == p {
                if !prev.contains(p) {
                    assert(cur[prev.len() as int] == p);
                }
            }
            if !cur.contains(p) {
                assert(!prev.contains(p));
                assert(pid_bytes(frames.drop_last(), m, include_unknown, p, upload) == 0);
            }
        }
    }
}

proof fn lemma_pids_total_step(
    frames: Seq<Frame>,
    f: Frame,
    m: Map<ProtocolPort, u32>,
    include_unknown: bool,
    pids: Seq<u32>,
    upload: bool,
)
    requires
        pids.no_duplicates(),
    ensures
        pids_total(frames.push(f), m, include_unknown, pids, upload) == pids_total(
            frames,
            m,
            include_unknown,
            pids,
            upload,
        ) + if counted(f, m, include_unknown) && pids.contains(owner(f, m)) {
            direction_bytes(f, upload)
        } else {
            0
        },
    decreases pids.len(),
{
    assert(frames.push(f).drop_last() =~= frames);
    if pids.len() > 0 {
        let rest = pids.drop_last();
        assert(rest.no_duplicates());
        lemma_pids_total_step(frames, f, m, include_unknown, rest, upload);
        let o = owner(f, m);
        if rest.contains(o) {
            let k = choose|k: int| 0 <= k < rest.len() && rest[k] == o;
            assert(pids[k] == o);
            assert(pids.last() != o);
        }
        assert(pids.contains(o) <==> (rest.contains(o) || pids.last() == o)) by {
            if pids.contains(o) {
                let k = choose|k: int| 0 <= k < pids.len() && pids[k] == o;
                if k < rest.len() {
                    assert(rest[k] == o);
                }
            }
            if rest.contains(o) {
                let k = choose|k: int| 0 <= k < rest.len() && rest[k] == o;
                assert(pids[k] == o);
            }
            if pids.last() == o {
                assert(pids[pids.len() - 1] == o);
            }
        }
    }
}

proof fn lemma_pids_total_counted(
    frames: Seq<Frame>,
    m: Map<ProtocolPort, u32>,
    include_unknown: bool,
    upload: bool,
)
    ensures
        pids_total(frames, m, include_unknown, pids_seen(frames, m, include_unknown), upload)
            == counted_bytes(frames, m, include_unknown, upload),
    decreases frames.len(),
{
    if frames.len() > 0 {
        let prev = frames.drop_last();
        let f = frames.last();
        assert(prev.push(f) =~= frames);
        lemma_pids_total_counted(prev, m, include_unknown, upload);
        lemma_pids_seen(prev, m, include_unknown);
        let pp = pids_seen(prev, m, include_unknown);
        lemma_pids_total_step(prev, f, m, include_unknown, pp, upload);
        let o = owner(f, m);
        if counted(f, m, include_unknown) && !pp.contains(o) {
            let pn = pp.push(o);
            assert(pn.drop_last() =~= pp);
            assert(pid_bytes(prev, m, include_unknown, o, upload) == 0);
            lemma_pids_total_step(prev, f, m, include_unknown, pp, upload);
        }
    }
}

proof fn lemma_entries_total(
    frames: Seq<Frame>,
    m: Map<ProtocolPort, u32>,
    include_unknown: bool,
    pids: Seq<u32>,
    upload: bool,
)
    requires
        forall|k: int|
            0 <= k < pids.len() ==> #[trigger] pid_bytes(frames, m, include_unknown, pids[k], upload)
                <= usize::MAX,
    ensures
        entries_bytes(entries_of(frames, m, include_unknown, pids), upload) == pids_total(
            frames,
            m,
            include_unknown,
            pids,
            upload,
        ),
    decreases pids.len(),
{
    if pids.len() > 0 {
        let rest = pids.drop_last();
        assert(entries_of(frames, m, include_unknown, pids).drop_last() =~= entries_of(
            frames,
            m,
            include_unknown,
            rest,
        ));
        assert forall|k: int| 0 <= k < rest.len() implies #[trigger] pid_bytes(
            frames,
            m,
            include_unknown,
            rest[k],
            upload,
        ) <= usize::MAX by {
            assert(rest[k] == pids[k]);
        }
        lemma_entries_total(frames, m, include_unknown, rest, upload);
        assert(pid_bytes(frames, m, include_unknown, pids[pids.len() - 1], upload) <= usize::MAX);
    }
}

proof fn lemma_bytes_bounds(
    frames: Seq<Frame>,
    m: Map<ProtocolPort, u32>,
    include_unknown: bool,
    pid: u32,
    upload: bool,
)
    ensures
        pid_bytes(frames, m, include_unknown, pid, upload) <= counted_bytes(
            frames,
            m,
            include_unknown,
            upload,
        ),
        counted_bytes(frames, m, include_unknown, upload) <= batch_bytes(frames, upload),
        include_unknown ==> counted_bytes(frames, m, include_unknown, upload) == batch_bytes(
            frames,
            upload,
        ),
    decreases frames.len(),
{
    if frames.len() > 0 {
        lemma_bytes_bounds(frames.drop_last(), m, include_unknown, pid, upload);
    }
}

/// Conservation: when a batch's bytes in one direction fit the counters, the entries of
/// its reduction add up in that direction to the bytes of the billed frames; with unknown
/// owners kept, to the bytes of the whole batch.
pub proof fn lemma_reduce_conserves_bytes(
    frames: Seq<Frame>,
    m: Map<ProtocolPort, u32>,
    include_unknown: bool,
    upload: bool,
)
    requires
        batch_bytes(frames, upload) <= usize::MAX,
    ensures
        entries_bytes(reduce_model(frames, m, include_unknown), upload) == counted_bytes(
            frames,
            m,
            include_unknown,
            upload,
        ),
        include_unknown ==> entries_bytes(reduce_model(frames, m, include_unknown), upload)
            == batch_bytes(frames, upload),
{
    let pids = pids_seen(frames, m, include_unknown);
    assert forall|k: int| 0 <= k < pids.len() implies #[trigger] pid_bytes(
        frames,
        m,
        include_unknown,
        pids[k],
        upload,
    ) <= usize::MAX by {
        lemma_bytes_bounds(frames, m, include_unknown, pids[k], upload);
    }
    lemma_entries_total(frames, m, include_unknown, pids, upload);
    lemma_pids_total_counted(frames, m, include_unknown, upload);
    lemma_bytes_bounds(frames, m, include_unknown, 0, upload);
}

/// A frame whose key the port map lacks is billed to the unknown pid when unknown owners
/// are kept, and gives no entry at all when they are dropped.
pub proof fn lemma_unknown_frame(f: Frame, m: Map<ProtocolPort, u32>)
    requires
        !m.contains_key(f.key()),
    ensures
        reduce_model(seq![f], m, true) == seq![
            ProcessPacketLength {
                pid: UNKNOWN_PID,
                upload_length: if f.is_upload {
                    f.data_length
                } else {
                    0
                },
                download_length: if f.is_upload {
                    0
                } else {
                    f.data_length
                },
            },
        ],
        reduce_model(seq![f], m, false) == Seq::<ProcessPacketLength>::empty(),
{
    let one = seq![f];
    assert(one.drop_last() =~= Seq::<Frame>::empty());
    assert(one.last() == f);
    assert(owner(f, m) == UNKNOWN_PID);
    assert(pids_seen(Seq::<Frame>::empty(), m, true) == Seq::<u32>::empty());
    assert(pids_seen(Seq::<Frame>::empty(), m, false) == Seq::<u32>::empty());
    assert(!Seq::<u32>::empty().contains(UNKNOWN_PID));
    assert(pid_bytes(Seq::<Frame>::empty(), m, true, UNKNOWN_PID, true) == 0);
    assert(pid_bytes(Seq::<Frame>::empty(), m, true, UNKNOWN_PID, false) == 0);
    assert(pids_seen(one, m, true) =~= seq![UNKNOWN_PID]);
    assert(reduce_model(one, m, true) =~= seq![
        ProcessPacketLength {
            pid: UNKNOWN_PID,
            upload_length: if f.is_upload {
                f.data_length
            } else {
                0
            },
            download_length: if f.is_upload {
                0
            } else {
                f.data_length
            },
        },
    ]);
    assert(reduce_model(one, m, false) =~= Seq::<ProcessPacketLength>::empty());
}

/// A frame has a known owner in the port map.
pub open spec fn is_attributed(m: Map<ProtocolPort, u32>) -> spec_fn(Frame) -> bool {
    |f: Frame| owner(f, m) != UNKNOWN_PID
}

/// The frames of a batch that the port map gives a known owner, in order.
pub open spec fn attributed(frames: Seq<Frame>, m: Map<ProtocolPort, u32>) -> Seq<Frame> {
    frames.filter(is_attributed(m))
}

proof fn lemma_drop_unattributed(frames: Seq<Frame>, m: Map<ProtocolPort, u32>)
    ensures
        pids_seen(frames, m, false) == pids_seen(attributed(frames, m), m, false),
        pids_seen(attributed(frames, m), m, false) == pids_seen(attributed(frames, m), m, true),
        forall|p: u32, upload: bool|
            #[trigger] pid_bytes(frames, m, false, p, upload) == pid_bytes(
                attributed(frames, m),
                m,
                false,
                p,
                upload,
            ),
        forall|p: u32, upload: bool|
            #[trigger] pid_bytes(attributed(frames, m), m, false, p, upload) == pid_bytes(
                attributed(frames, m),
                m,
                true,
                p,
                upload,
            ),
    decreases frames.len(),
{
    if frames.len() == 0 {
        assert(attributed(frames, m) =~= Seq::<Frame>::empty());
        assert forall|p: u32, upload: bool|
            #[trigger] pid_bytes(frames, m, false, p, upload) == pid_bytes(
                attributed(frames, m),
                m,
                false,
                p,
                upload,
            ) by {
            assert(pid_bytes(attributed(frames, m), m, false, p, upload) == 0);
            assert(pid_bytes(attributed(frames, m), m, true, p, upload) == 0);
        }
        assert forall|p: u32, upload: bool|
            #[trigger] pid_bytes(attributed(frames, m), m, false, p, upload) == pid_bytes(
                attributed(frames, m),
                m,
                true,
                p,
                upload,
            ) by {
            assert(pid_bytes(attributed(frames, m), m, false, p, upload) == 0);
            assert(pid_bytes(attributed(frames, m), m, true, p, upload) == 0);
        }
    } else {
        let prev = frames.drop_last();
        let f = frames.last();
        assert(prev.push(f) =~= frames);
        lemma_drop_unattributed(prev, m);
        prev.lemma_filter_push(f, is_attributed(m));
        let g = attributed(prev, m);
        if owner(f, m) != UNKNOWN_PID {
            assert(attributed(frames, m) == g.push(f));
            assert(g.push(f).drop_last() =~= g);
            assert(g.push(f).last() == f);
        } else {
            assert(attributed(frames, m) == g);
        }
        assert forall|p: u32, upload: bool|
            #[trigger] pid_bytes(frames, m, false, p, upload) == pid_bytes(
                attributed(frames, m),
                m,
                false,
                p,
                upload,
            ) by {
            assert(pid_bytes(prev, m, false, p, upload) == pid_bytes(g, m, false, p, upload));
        }
        assert forall|p: u32, upload: bool|
            #[trigger] pid_bytes(attributed(frames, m), m, false, p, upload) == pid_bytes(
                attributed(frames, m),
                m,
                true,
                p,
                upload,
            ) by {
            assert(pid_bytes(prev, m, false, p, upload) == pid_bytes(g, m, false, p, upload));
            assert(pid_bytes(g, m, false, p, upload) == pid_bytes(g, m, true, p, upload));
        }
    }
}

/// With unknown owners dropped, the reduction of a batch is the reduction of its
/// attributed frames alone, under either policy, and no entry is the unknown pid: the
/// unattributed frames give no entry and add to none.
pub proof fn lemma_dropped_unknown_frames(frames: Seq<Frame>, m: Map<ProtocolPort, u32>)
    ensures
        reduce_model(frames, m, false) == reduce_model(attributed(frames, m), m, false),
        reduce_model(attributed(frames, m), m, false) == reduce_model(
            attributed(frames, m),
            m,
            true,
        ),
        forall|k: int|
            0 <= k < reduce_model(frames, m, false).len() ==> (#[trigger] reduce_model(
                frames,
                m,
                false,
            )[k]).pid != UNKNOWN_PID,
{
    lemma_drop_unattributed(frames, m);
    lemma_pids_seen(frames, m, false);
    let g = attributed(frames, m);
    assert(reduce_model(frames, m, false) =~= reduce_model(g, m, false));
    assert(reduce_model(g, m, false) =~= reduce_model(g, m, true));
}

proof fn lemma_counted_owner_seen(
    frames: Seq<Frame>,
    m: Map<ProtocolPort, u32>,
    include_unknown: bool,
    i: int,
)
    requires
        0 <= i < frames.len(),
        counted(frames[i], m, include_unknown),
    ensures
        pids_seen(frames, m, include_unknown).contains(owner(frames[i], m)),
    decreases frames.len(),
{
    let prev = frames.drop_last();
    let pp = pids_seen(prev, m, include_unknown);
    let cur = pids_seen(frames, m, include_unknown);
    let o = owner(frames[i], m);
    if i < frames.len() - 1 {
        assert(prev[i] == frames[i]);
        lemma_counted_owner_seen(prev, m, include_unknown, i);
        let k = choose|k: int| 0 <= k < pp.len() && pp[k] == o;
        assert(cur[k] == o);
    } else {
        if pp.contains(o) {
            let k = choose|k: int| 0 <= k < pp.len() && pp[k] == o;
            assert(cur[k] == o);
        } else {
            assert(cur[pp.len() as int] == o);
        }
    }
}

/// With unknown owners kept, a batch that has an unattributed frame (at `i`) has exactly
/// one entry for the unknown pid. It holds, in each direction, the bytes of the frames
/// without a known owner, exactly so when the batch's bytes fit the counters.
pub proof fn lemma_unknown_bucket(frames: Seq<Frame>, m: Map<ProtocolPort, u32>, i: int)
    requires
        0 <= i < frames.len(),
        owner(frames[i], m) == UNKNOWN_PID,
    ensures
        exists|k: int|
            0 <= k < reduce_model(frames, m, true).len() && #[trigger] reduce_model(
                frames,
                m,
                true,
            )[k] == entry_for(frames, m, true, UNKNOWN_PID),
        forall|a: int, b: int|
            0 <= a < reduce_model(frames, m, true).len() && 0 <= b < reduce_model(
                frames,
                m,
                true,
            ).len() && (#[trigger] reduce_model(frames, m, true)[a]).pid == UNKNOWN_PID && (
            #[trigger] reduce_model(frames, m, true)[b]).pid == UNKNOWN_PID ==> a == b,
        batch_bytes(frames, true) <= usize::MAX ==> entry_for(
            frames,
            m,
            true,
            UNKNOWN_PID,
        ).upload_length == pid_bytes(frames, m, true, UNKNOWN_PID, true),
        batch_bytes(frames, false) <= usize::MAX ==> entry_for(
            frames,
            m,
            true,
            UNKNOWN_PID,
        ).download_length == pid_bytes(frames, m, true, UNKNOWN_PID, false),
{
    lemma_counted_owner_seen(frames, m, true, i);
    lemma_pids_seen(frames, m, true);
    let pids = pids_seen(frames, m, true);
    let k = choose|k: int| 0 <= k < pids.len() && pids[k] == UNKNOWN_PID;
    assert(reduce_model(frames, m, true)[k] == entry_for(frames, m, true, UNKNOWN_PID));
    lemma_bytes_bounds(frames, m, true, UNKNOWN_PID, true);
    lemma_bytes_bounds(frames, m, true, UNKNOWN_PID, false);
}

/// A count, capped at the largest `u64`.
pub open spec fn saturate_u64(n: nat) -> u64 {
    if n > u64::MAX {
        u64::MAX
    } else {
        n as u64
    }
}

/// The bytes of the whole batch uploaded and downloaded, each capped at the largest `u64`.
pub fn window_totals(frames: &Vec<Frame>) -> (r: (u64, u64))
    ensures
        r.0 == saturate_u64(batch_bytes(frames@, true)),
        r.1 == saturate_u64(batch_bytes(frames@, false)),
{
    let mut up: u64 = 0;
    let mut down: u64 = 0;
    let mut i: usize = 0;
    while i < frames.len()
        invariant
            i <= frames@.len(),
            up == saturate_u64(batch_bytes(frames@.take(i as int), true)),
            down == saturate_u64(batch_bytes(frames@.take(i as int), false)),
        decreases frames@.len() - i,
    {
        assert(frames@.take(i + 1).drop_last() =~= frames@.take(i as int));
        let n = frames[i].data_length as u64;
        if frames[i].is_upload {
            up = if up > u64::MAX - n {
                u64::MAX
            } else {
                up + n
            };
        } else {
            down = if down > u64::MAX - n {
                u64::MAX
            } else {
                down + n
            };
        }
        i = i + 1;
    }
    assert(frames@.take(i as int) =~= frames@);
    (up, down)
}

/// `a + x`, capped at the largest `usize`.
fn add_saturating(a: usize, x: usize) -> (r: usize)
    ensures
        r == saturate((a + x) as nat),
{
    if a > usize::MAX - x {
        usize::MAX
    } else {
        a + x
    }
}

/// Folds a batch into per-process byte counts. Each frame is billed to the owner that the
/// port map gives its key, or to the unknown pid when the key is absent; frames of the
/// unknown pid are dropped unless `include_unknown`. Entries come in order of first
/// appearance, and each count saturates at the largest `usize`.
pub fn reduce(frames: &Vec<Frame>, map: &PortMap, include_unknown: bool) -> (r: Vec<
    ProcessPacketLength,
>)
    ensures
        r@ == reduce_model(frames@, map@, include_unknown),
{
    let ghost m = map@;
    let mut out: Vec<ProcessPacketLength> = Vec::new();
    let mut i: usize = 0;
    assert(out@ =~= reduce_model(frames@.take(0), m, include_unknown));
    while i < frames.len()
        invariant
            i <= frames@.len(),
            m == map@,
            out@ == reduce_model(frames@.take(i as int), m, include_unknown),
        decreases frames@.len() - i,
    {
        let ghost pre = frames@.take(i as int);
        let ghost post = frames@.take(i + 1);
        assert(post.drop_last() =~= pre);
        let f = &frames[i];
        assert(post.last() == *f);
        let key = f.protocol_port();
        let pid = match map.get(&key) {
            Some(p) => p,
            None => UNKNOWN_PID,
        };
        assert(pid == owner(*f, m));
        proof {
            lemma_pids_seen(pre, m, include_unknown);
        }
        if include_unknown || pid != UNKNOWN_PID {
            let up: usize = if f.is_upload {
                f.data_length
            } else {
                0
            };
            let down: usize = if f.is_upload {
                0
            } else {
                f.data_length
            };
            let mut j: usize = 0;
            while j < out.len() && out[j].pid != pid
                invariant
                    j <= out@.len(),
                    forall|k: int| 0 <= k < j ==> out@[k].pid != pid,
                decreases out@.len() - j,
            {
                j = j + 1;
            }
            let ghost pids = pids_seen(pre, m, include_unknown);
            if j < out.len() {
                let e = out[j];
                assert(pids[j as int] == pid);
                assert(e == entry_for(pre, m, include_unknown, pid));
                assert(pid_bytes(post, m, include_unknown, pid, true) == pid_bytes(
                    pre,
                    m,
                    include_unknown,
                    pid,
                    true,
                ) + up);
                assert(pid_bytes(post, m, include_unknown, pid, false) == pid_bytes(
                    pre,
                    m,
                    include_unknown,
                    pid,
                    false,
                ) + down);
                assert(pids_seen(post, m, include_unknown) == pids);
                out.set(
                    j,
                    ProcessPacketLength {
                        pid,
                        upload_length: add_saturating(e.upload_length, up),
                        download_length: add_saturating(e.download_length, down),
                    },
                );
                assert forall|k: int| 0 <= k < pids.len() && k != j implies #[trigger] entry_for(
                    post,
                    m,
                    include_unknown,
                    pids[k],
                ) == entry_for(pre, m, include_unknown, pids[k]) by {
                    assert(pids.no_duplicates());
                    assert(pids[k] != pid);
                }
                assert(out@ =~= reduce_model(post, m, include_unknown));
            } else {
                assert forall|k: int| 0 <= k < pids.len() implies pids[k] != pid by {
                    assert(out@[k].pid == pids[k]);
                }
                assert(!pids.contains(pid));
                assert(pids_seen(post, m, include_unknown) == pids.push(pid));
                out.push(ProcessPacketLength { pid, upload_length: up, download_length: down });
                assert forall|k: int| 0 <= k < pids.len() implies #[trigger] entry_for(
                    post,
                    m,
                    include_unknown,
                    pids[k],
                ) == entry_for(pre, m, include_unknown, pids[k]) by {
                    assert(pids[k] != pid);
                }
                assert(pid_bytes(pre, m, include_unknown, pid, true) == 0);
                assert(pid_bytes(pre, m, include_unknown, pid, false) == 0);
                assert(out@ =~= reduce_model(post, m, include_unknown));
            }
        } else {
            assert(pids_seen(post, m, include_unknown) == pids_seen(pre, m, include_unknown));
            assert forall|p: u32| #[trigger] entry_for(post, m, include_unknown, p) == entry_for(
                pre,
                m,
                include_unknown,
                p,
            ) by {}
        }
        i = i + 1;
        assert(out@ =~= reduce_model(post, m, include_unknown));
    }
    assert(frames@.take(i as int) =~= frames@);
    out
}

} // verus!
