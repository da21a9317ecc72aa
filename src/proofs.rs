//! Properties of whole operations that follow from the controller's and
//! the open plan's decisions: how an open truncates, where seeks land, and what runs of write and read steps do
//! to and get from the volume files, whose contents are modelled as byte
//! sequences (`write_run`, `read_run`).
use vstd::prelude::*;
use crate::controller::{
    SeekAction, SeekPos, SplitState, VolumeState, fresh_volume, write_run, chunk_end,
    write_decision, write_access, overwrite, Step, read_run, read_decision, read_access,
};
use crate::offsets::SplitError;
use crate::opening::{OpenAction, open_decision};
use crate::options::{OpenOptions, volume_flags_spec};
use vstd::seq_lib::lemma_flatten_concat;

verus! {

/// A seek from the start to any offset within the logical length lands
/// exactly there: on an existing volume, at the local offset that makes up
/// that logical offset.
pub proof fn seek_start_lands_exactly(st: SplitState, x: u64, len: u64)
    requires
        st.wf(),
        x <= len,
    ensures
        st.seek_decision(SeekPos::Start(x), Some(len)) matches Ok(
            SeekAction::Position { vol, local, target },
        ) && target == x && 1 <= vol <= st.count() && (vol - 1) * st.volsize_spec() + local == x,
{
    lemma_place(st, x);
}

/// A seek before the start of the file is rejected as an invalid argument,
/// whether or not the length is known.
pub proof fn seek_before_start_rejected(st: SplitState, off: i64, len: Option<u64>)
    requires
        st.wf(),
        st.logical_pos() + off < 0,
    ensures
        st.seek_decision(SeekPos::Current(off), len) == Err::<SeekAction, SplitError>(
            SplitError::InvalidInput,
        ),
{
}

/// A seek to the end first measures the length, then lands exactly on it,
/// where a seek from the start to the length lands.
pub proof fn seek_end_lands_on_length(st: SplitState, len: u64)
    requires
        st.wf(),
    ensures
        st.seek_decision(SeekPos::End(0), None) == Ok::<SeekAction, SplitError>(
            SeekAction::MeasureLast,
        ),
        st.seek_decision(SeekPos::End(0), Some(len)) matches Ok(
            SeekAction::Position { vol, local, target },
        ) && target == len && 1 <= vol <= st.count() && (vol - 1) * st.volsize_spec() + local
            == len,
        st.seek_decision(SeekPos::End(0), Some(len)) == st.seek_decision(
            SeekPos::Start(len),
            Some(len),
        ),
{
    lemma_place(st, len);
}

/// A seek to the end of data laid out in full volumes lands at the end of
/// the last volume; once the seek is done, a write there appends its bytes
/// to the data, in new volumes where the last one is full.
pub proof fn seek_end_then_write_appends(
    st: SplitState,
    files: Seq<Seq<u8>>,
    vols: Seq<VolumeState>,
    buf: Seq<u8>,
)
    requires
        st.wf(),
        files.len() == st.count() == vols.len(),
        forall|i: int| 0 <= i < files.len() - 1 ==> (#[trigger] files[i].len()) == st.volsize_spec(),
        files[files.len() - 1].len() <= st.volsize_spec(),
        files[files.len() - 1].len() > 0 || files.len() == 1,
        files.flatten().len() + buf.len() <= usize::MAX,
        st.seek_decision(SeekPos::End(0), Some(files.flatten().len() as u64)) matches Ok(
            SeekAction::Position { vol, local, target },
        ) ==> vols[vol - 1] == (VolumeState { pos: local, reset: false }),
    ensures
        st.seek_decision(SeekPos::End(0), Some(files.flatten().len() as u64)) matches Ok(
            SeekAction::Position { vol, local, target },
        ) && target == files.flatten().len() && vol == files.len() && local == files[files.len()
            - 1].len(),
        write_run(
            st.volsize_spec(),
            vols.len(),
            vols,
            files,
            buf,
            0,
            (3 * buf.len() + 1) as nat,
        ).2.flatten() == files.flatten() + buf,
{
    let content = files.flatten();
    let c = files.len() as int;
    let v = st.volsize_spec() as int;
    let last = files[c - 1];
    lemma_prefix_len(files, v, c - 1);
    assert(files == files.subrange(0, c - 1).push(last));
    files.subrange(0, c - 1).lemma_flatten_push(last);
    let total = content.len() as int;
    assert(total == (c - 1) * v + last.len());
    assert(total / v >= c - 1) by (nonlinear_arith)
        requires
            total >= (c - 1) * v,
            v > 0,
            c >= 1,
    ;
    assert(st.seek_decision(SeekPos::End(0), Some(total as u64)) == Ok::<SeekAction, SplitError>(st.place(total as u64)));
    assert(st.volume_of(total) == c);
    assert(at_end(v as nat, vols, files, content));
    write_at_end_appends(st.volsize_spec() as u64, vols, files, content, buf);
}

/// An open with truncation removes the continuation volumes before any
/// volume is opened, and then opens volume 1 with the truncate flag; an
/// open without it never truncates.
pub proof fn truncate_comes_before_any_open(o: OpenOptions)
    ensures
        o.truncate ==> open_decision((o, false, 0nat, false, false), None).1 == OpenAction::Truncate,
        o.truncate ==> open_decision(open_decision((o, false, 0nat, false, false), None).0, None).1
            == (OpenAction::Open { vol: 1, flags: volume_flags_spec(o, true) }),
        o.truncate ==> volume_flags_spec(o, true).truncate,
        !o.truncate ==> open_decision((o, false, 0nat, false, false), None).1 == (OpenAction::Open {
            vol: 1,
            flags: volume_flags_spec(o, true),
        }),
{
}

/// Where a target is placed: an existing volume, and a local offset that
/// makes up the target.
proof fn lemma_place(st: SplitState, t: u64)
    requires
        st.wf(),
    ensures
        st.place(t) matches SeekAction::Position { vol, local, target } && target == t && 1 <= vol
            <= st.count() && (vol - 1) * st.volsize_spec() + local == t,
{
    let v = st.volsize_spec() as int;
    let vol = st.volume_of(t as int);
    assert((vol - 1) * v <= (t as int / v) * v) by (nonlinear_arith)
        requires
            vol - 1 <= t as int / v,
            v > 0,
    ;
    assert((t as int / v) * v <= t) by (nonlinear_arith)
        requires
            v > 0,
            t >= 0,
    ;
    assert(t as int / v >= 0);
    assert(1 <= vol <= st.count());
    assert(0 <= t - (vol - 1) * v <= t);
}

/// The volume files hold `content` laid out in order, and the cursor of
/// the last volume stands at its end, in sync: every volume but the last
/// holds exactly `v` bytes, the last holds the rest, and it is empty only
/// when the whole file is.
pub open spec fn at_end(v: nat, vols: Seq<VolumeState>, files: Seq<Seq<u8>>, content: Seq<u8>) -> bool {
    let k = vols.len();
    &&& k >= 1
    &&& files.len() == k
    &&& forall|i: int| 0 <= i < k - 1 ==> (#[trigger] files[i].len()) == v
    &&& files[k - 1].len() <= v
    &&& vols[k - 1] == (VolumeState { pos: files[k - 1].len() as u64, reset: false })
    &&& (k - 1) * v + files[k - 1].len() == content.len()
    &&& (files[k - 1].len() > 0 || content.len() == 0)
    &&& files.flatten() == content
}

/// A write that starts at the end of the data appends the bytes written:
/// afterwards every volume but the last holds exactly the volume size, the
/// last holds the rest, together they hold the old contents followed by
/// the bytes written, and the volume the write ends on is the active one.
pub proof fn write_at_end_appends(
    v: u64,
    vols: Seq<VolumeState>,
    files: Seq<Seq<u8>>,
    content: Seq<u8>,
    buf: Seq<u8>,
)
    requires
        v > 0,
        at_end(v as nat, vols, files, content),
        content.len() + buf.len() <= usize::MAX,
    ensures
        ({
            let (k, after, files_after) = write_run(
                v as nat,
                vols.len(),
                vols,
                files,
                buf,
                0,
                (3 * buf.len() + 1) as nat,
            );
            &&& at_end(v as nat, after, files_after, content + buf)
            &&& k == after.len()
        }),
{
    assert(buf.subrange(0, 0) == Seq::<u8>::empty());
    assert(content + Seq::<u8>::empty() == content);
    lemma_write_run(v as nat, vols, files, content, buf, 0, (3 * buf.len() + 1) as nat);
}

/// Writing `buf` to a fresh file with `n = buf.len() > 0` gives
/// `ceil(n / v)` volumes: each but the last holds `v` bytes, the last holds
/// `n - v * (count - 1)`, and the volumes in order hold `buf`.
pub proof fn fresh_write_volume_sizes(v: u64, buf: Seq<u8>)
    requires
        v > 0,
        0 < buf.len() <= usize::MAX,
    ensures
        ({
            let (_, after, files) = write_run(
                v as nat,
                1,
                seq![fresh_volume()],
                seq![Seq::<u8>::empty()],
                buf,
                0,
                (3 * buf.len() + 1) as nat,
            );
            &&& files.flatten() == buf
            &&& files.len() == (buf.len() + v - 1) / (v as int)
            &&& forall|i: int| 0 <= i < files.len() - 1 ==> (#[trigger] files[i].len()) == v
            &&& files[files.len() - 1].len() == buf.len() - v * (files.len() - 1)
        }),
{
    lemma_fresh_at_end(v);
    write_at_end_appends(v, seq![fresh_volume()], seq![Seq::<u8>::empty()], Seq::empty(), buf);
    assert(Seq::<u8>::empty() + buf == buf);
    let (_, after, files) = write_run(
        v as nat,
        1,
        seq![fresh_volume()],
        seq![Seq::<u8>::empty()],
        buf,
        0,
        (3 * buf.len() + 1) as nat,
    );
    volume_count_of_length(v, after, files, buf);
    let c = files.len() as int;
    assert((c - 1) * v == v * (c - 1)) by (nonlinear_arith);
}

/// Writing exactly `v` bytes to a fresh file and then one more byte gives
/// two volumes, of `v` bytes and of 1 byte, never one oversized volume.
pub proof fn full_volume_then_one_byte(v: u64, a: Seq<u8>, b: Seq<u8>)
    requires
        v > 0,
        a.len() == v,
        b.len() == 1,
        v + 1 <= usize::MAX,
    ensures
        ({
            let (k1, vols1, files1) = write_run(
                v as nat,
                1,
                seq![fresh_volume()],
                seq![Seq::<u8>::empty()],
                a,
                0,
                (3 * a.len() + 1) as nat,
            );
            let (_, _, files2) = write_run(v as nat, k1, vols1, files1, b, 0, 4);
            &&& files2.len() == 2
            &&& files2[0].len() == v
            &&& files2[1].len() == 1
            &&& files2.flatten() == a + b
        }),
{
    lemma_fresh_at_end(v);
    write_at_end_appends(v, seq![fresh_volume()], seq![Seq::<u8>::empty()], Seq::empty(), a);
    assert(Seq::<u8>::empty() + a == a);
    let (k1, vols1, files1) = write_run(
        v as nat,
        1,
        seq![fresh_volume()],
        seq![Seq::<u8>::empty()],
        a,
        0,
        (3 * a.len() + 1) as nat,
    );
    write_at_end_appends(v, vols1, files1, a, b);
    let (_, vols2, files2) = write_run(v as nat, k1, vols1, files1, b, 0, 4);
    volume_count_of_length(v, vols2, files2, a + b);
    assert((v + 1 + v - 1) / (v as int) == 2) by (nonlinear_arith)
        requires
            v > 0,
    ;
    assert(3 * b.len() + 1 == 4);
    assert(files2.len() == 2);
    assert((2 - 1) * (v as int) == v);
    assert(files2[0].len() == v);
}

/// Volumes that hold `n > 0` bytes laid out in order number exactly
/// `ceil(n / v)`.
pub proof fn volume_count_of_length(
    v: u64,
    vols: Seq<VolumeState>,
    files: Seq<Seq<u8>>,
    content: Seq<u8>,
)
    requires
        v > 0,
        content.len() > 0,
        at_end(v as nat, vols, files, content),
    ensures
        files.len() == (content.len() + v - 1) / (v as int),
{
    let k = vols.len() as int;
    let r = files[k - 1].len() as int;
    let n = content.len() as int;
    let vi = v as int;
    assert(0 < r <= vi);
    assert(n + vi - 1 == k * vi + (r - 1)) by (nonlinear_arith)
        requires
            (k - 1) * vi + r == n,
    ;
    assert((k * vi + (r - 1)) / vi == k) by (nonlinear_arith)
        requires
            0 <= r - 1 < vi,
            vi > 0,
    ;
}

/// A file just created, with one empty volume, is at the end of its data.
proof fn lemma_fresh_at_end(v: u64)
    requires
        v > 0,
    ensures
        at_end(v as nat, seq![fresh_volume()], seq![Seq::<u8>::empty()], Seq::empty()),
{
    seq![Seq::<u8>::empty()].lemma_flatten_one_element();
}

/// Replacing the last file by itself followed by `chunk` appends `chunk`
/// to what the files hold together.
proof fn lemma_flatten_extend_last(files: Seq<Seq<u8>>, chunk: Seq<u8>)
    requires
        files.len() >= 1,
    ensures
        files.update(files.len() - 1, files[files.len() - 1] + chunk).flatten() == files.flatten()
            + chunk,
{
    let n = files.len() - 1;
    let init = files.drop_last();
    assert(files == init.push(files[n]));
    assert(files.update(n, files[n] + chunk) == init.push(files[n] + chunk));
    init.lemma_flatten_push(files[n]);
    init.lemma_flatten_push(files[n] + chunk);
}

/// A write run from the end of the data appends the bytes of the run.
#[verifier::rlimit(60)]
proof fn lemma_write_run(
    v: nat,
    vols: Seq<VolumeState>,
    files: Seq<Seq<u8>>,
    prior: Seq<u8>,
    buf: Seq<u8>,
    done: usize,
    fuel: nat,
)
    requires
        0 < v <= u64::MAX,
        done <= buf.len(),
        prior.len() + buf.len() <= usize::MAX,
        at_end(v, vols, files, prior + buf.subrange(0, done as int)),
        fuel >= 3 * (buf.len() - done) + 1,
    ensures
        ({
            let (k, after, files_after) = write_run(v, vols.len(), vols, files, buf, done, fuel);
            &&& at_end(v, after, files_after, prior + buf)
            &&& k == after.len()
        }),
    decreases buf.len() - done,
{
    let len = buf.len() as usize;
    let base = prior.len() as int;
    let k = vols.len();
    let last = vols[k - 1];
    let f = files[k - 1];
    assert(k <= usize::MAX) by {
        assert((k - 1) * v >= k - 1) by (nonlinear_arith)
            requires
                v >= 1,
                k >= 1,
        ;
        if f.len() == 0 {
            assert((k - 1) * v == 0);
            assert(k - 1 == 0);
        }
    }
    if done >= len {
        assert(write_decision(v, k, vols, done, len) == (k, Ok::<Step, SplitError>(Step::Done { count: done })));
        assert(write_run(v, k, vols, files, buf, done, fuel) == (k, vols, files));
        assert(buf.subrange(0, done as int) == buf);
    } else if last.pos < v {
        let end = chunk_end(v, last.pos, done, len);
        assert(write_access(v, k, vols, done, len, false) == (Step::Write { vol: k as usize, start: done, end }));
        assert(write_decision(v, k, vols, done, len) == (k, Ok::<Step, SplitError>(Step::Write { vol: k as usize, start: done, end })));
        let chunk = buf.subrange(done as int, end as int);
        let vols1 = vols.update(k - 1, VolumeState { pos: (last.pos + (end - done)) as u64, reset: false });
        let files1 = files.update(k - 1, overwrite(f, last.pos as int, chunk));
        assert(overwrite(f, last.pos as int, chunk) == f + chunk) by {
            assert(f.subrange(0, last.pos as int) == f);
        }
        assert(write_run(v, k, vols, files, buf, done, fuel) == write_run(v, k, vols1, files1, buf, end, (fuel - 1) as nat));
        assert(at_end(v, vols1, files1, prior + buf.subrange(0, end as int))) by {
            lemma_flatten_extend_last(files, chunk);
            assert(prior + buf.subrange(0, done as int) + chunk == prior + buf.subrange(0, end as int));
            assert forall|i: int| 0 <= i < k - 1 implies (#[trigger] files1[i].len()) == v by {
                assert(files1[i] == files[i]);
            }
        }
        lemma_write_run(v, vols1, files1, prior, buf, end, (fuel - 1) as nat);
    } else {
        assert((k - 1) * v + v == k * v) by (nonlinear_arith);
        assert(k <= k * v) by (nonlinear_arith)
            requires
                v >= 1,
        ;
        assert(k < usize::MAX);
        let vols1 = vols.push(fresh_volume());
        let files1 = files.push(Seq::<u8>::empty());
        assert(write_decision(v, k, vols, done, len) == (k, Ok::<Step, SplitError>(Step::AddVolume { vol: (k + 1) as usize })));
        assert(write_run(v, k, vols, files, buf, done, fuel) == write_run(v, k, vols1, files1, buf, done, (fuel - 1) as nat));
        let end = chunk_end(v, 0, done, len);
        assert(vols1[k - 1] == last);
        assert(vols1[k as int] == fresh_volume());
        assert(write_access(v, k + 1, vols1, done, len, true) == (Step::Write { vol: (k + 1) as usize, start: done, end }));
        assert(write_decision(v, k, vols1, done, len) == (k + 1, Ok::<Step, SplitError>(Step::Write { vol: (k + 1) as usize, start: done, end })));
        let chunk = buf.subrange(done as int, end as int);
        let vols2 = vols1.update(k as int, VolumeState { pos: (end - done) as u64, reset: false });
        let files2 = files1.update(k as int, overwrite(files1[k as int], 0, chunk));
        assert(overwrite(files1[k as int], 0, chunk) == chunk) by {
            assert(files1[k as int] == Seq::<u8>::empty());
            assert(Seq::<u8>::empty().subrange(0, 0) + chunk == chunk);
        }
        assert(write_run(v, k, vols1, files1, buf, done, (fuel - 1) as nat) == write_run(v, k + 1, vols2, files2, buf, end, (fuel - 2) as nat));
        assert(at_end(v, vols2, files2, prior + buf.subrange(0, end as int))) by {
            files.lemma_flatten_push(Seq::<u8>::empty());
            assert(files.flatten() + Seq::<u8>::empty() == files.flatten());
            lemma_flatten_extend_last(files1, chunk);
            assert(files2 == files1.update(files1.len() - 1, files1[files1.len() - 1] + chunk)) by {
                assert(files1[k as int] + chunk == chunk);
            }
            assert(prior + buf.subrange(0, done as int) + chunk == prior + buf.subrange(0, end as int));
            assert forall|i: int| 0 <= i < k implies (#[trigger] files2[i].len()) == v by {
                assert(files2[i] == files[i]);
            }
            assert(vols2.len() == k + 1);
            assert(k * v == (k - 1) * v + v);
        }
        lemma_write_run(v, vols2, files2, prior, buf, end, (fuel - 2) as nat);
    }
}

/// The volume states of a file just opened with `count` volumes: volume 1
/// active, every cursor at 0 and in sync.
pub open spec fn opened(count: nat) -> Seq<VolumeState> {
    Seq::new(count, |i: int| fresh_volume())
}

/// A read of `len` bytes from a file just opened gets the volumes'
/// contents in order, up to `len` bytes: all of them where they hold
/// fewer.
pub proof fn read_after_open_gets_contents(files: Seq<Seq<u8>>, len: usize)
    requires
        1 <= files.len() <= usize::MAX,
        forall|i: int| 0 <= i < files.len() ==> (#[trigger] files[i].len()) <= u64::MAX,
    ensures
        ({
            let all = files.flatten();
            let got = read_run(1, opened(files.len()), files, 0, len, false, (3 * files.len() + 3) as nat);
            got == all.subrange(0, if len <= all.len() { len as int } else { all.len() as int })
        }),
{
    let vols = opened(files.len());
    assert(files.subrange(1, files.len() as int).flatten() + Seq::empty() == files.subrange(1, files.len() as int).flatten());
    assert(files[0].subrange(0, files[0].len() as int) == files[0]);
    assert(files.subrange(0, files.len() as int) == files);
    lemma_flatten_from(files, 0);
    lemma_read_run(files, vols, 1, 0, 0, len, false, (3 * files.len() + 3) as nat);
}

/// Writing `buf` to a fresh file, then reading `buf.len()` bytes from the
/// file opened again, gets `buf` back.
pub proof fn write_then_read_round_trip(v: u64, buf: Seq<u8>)
    requires
        v > 0,
        buf.len() <= usize::MAX,
    ensures
        ({
            let (_, _, files) = write_run(
                v as nat,
                1,
                seq![fresh_volume()],
                seq![Seq::<u8>::empty()],
                buf,
                0,
                (3 * buf.len() + 1) as nat,
            );
            read_run(1, opened(files.len()), files, 0, buf.len() as usize, false, (3 * files.len() + 3) as nat) == buf
        }),
{
    lemma_fresh_at_end(v);
    write_at_end_appends(v, seq![fresh_volume()], seq![Seq::<u8>::empty()], Seq::empty(), buf);
    assert(Seq::<u8>::empty() + buf == buf);
    let (_, after, files) = write_run(
        v as nat,
        1,
        seq![fresh_volume()],
        seq![Seq::<u8>::empty()],
        buf,
        0,
        (3 * buf.len() + 1) as nat,
    );
    lemma_at_end_bounds(v as nat, after, files, buf);
    read_after_open_gets_contents(files, buf.len() as usize);
    assert(buf.subrange(0, buf.len() as int) == buf);
}

/// Volumes at the end of data that fit in memory number at most
/// `usize::MAX`, and each file fits in a `u64`.
proof fn lemma_at_end_bounds(v: nat, vols: Seq<VolumeState>, files: Seq<Seq<u8>>, content: Seq<u8>)
    requires
        0 < v <= u64::MAX,
        content.len() <= usize::MAX,
        at_end(v, vols, files, content),
    ensures
        files.len() <= usize::MAX,
        forall|i: int| 0 <= i < files.len() ==> (#[trigger] files[i].len()) <= u64::MAX,
{
    let k = vols.len();
    assert((k - 1) * v >= k - 1) by (nonlinear_arith)
        requires
            v >= 1,
            k >= 1,
    ;
    if files[k - 1].len() == 0 {
        assert((k - 1) * v == 0);
    }
}

/// After a seek from the start to `x`, within the logical length, a read
/// of `len` bytes gets the bytes at logical offsets `x..x + len` (those
/// that exist), whatever the cached state of the volumes after the one the
/// seek lands on.
pub proof fn seek_then_read_gets_bytes_at_offset(
    st: SplitState,
    files: Seq<Seq<u8>>,
    vols: Seq<VolumeState>,
    x: u64,
    len: usize,
)
    requires
        st.wf(),
        files.len() == st.count() == vols.len(),
        forall|i: int| 0 <= i < files.len() - 1 ==> (#[trigger] files[i].len()) == st.volsize_spec(),
        x <= files.flatten().len() <= u64::MAX,
        st.seek_decision(SeekPos::Start(x), Some(files.flatten().len() as u64)) matches Ok(
            SeekAction::Position { vol, local, target },
        ) ==> vols[vol - 1] == (VolumeState { pos: local, reset: false }),
    ensures
        st.seek_decision(SeekPos::Start(x), Some(files.flatten().len() as u64)) matches Ok(
            SeekAction::Position { vol, local, target },
        ) && target == x && read_run(vol as nat, vols, files, 0, len, false, (3 * files.len() + 3) as nat)
            == files.flatten().subrange(
            x as int,
            if x + len <= files.flatten().len() {
                x + len
            } else {
                files.flatten().len() as int
            },
        ),
{
    let content = files.flatten();
    let total = content.len();
    let c = files.len() as int;
    let v = st.volsize_spec() as int;
    lemma_place(st, x);
    assert(st.seek_decision(SeekPos::Start(x), Some(total as u64)) == Ok::<SeekAction, SplitError>(st.place(x)));
    let vol = st.volume_of(x as int);
    let local = x - (vol - 1) * v;
    let j = vol - 1;
    lemma_prefix_len(files, v, j);
    let prefix = files.subrange(0, j).flatten();
    let tail = files.subrange(vol, c).flatten();
    assert(files == files.subrange(0, j) + files.subrange(j, c));
    lemma_flatten_concat(files.subrange(0, j), files.subrange(j, c));
    lemma_flatten_from(files, j);
    assert(content == prefix + files[j] + tail);
    assert(local <= files[j].len()) by {
        if vol < c {
            assert(vol == x as int / v + 1);
            assert(x as int - (x as int / v) * v < v) by (nonlinear_arith)
                requires
                    v > 0,
                    x >= 0,
            ;
        } else {
            assert(files.subrange(vol, c) == Seq::<Seq<u8>>::empty());
            assert(tail == Seq::<u8>::empty());
        }
    }
    assert forall|i: int| 0 <= i < files.len() implies (#[trigger] files[i].len()) <= u64::MAX by {
        if i < c - 1 {
        } else {
            assert(files[c - 1].len() <= total) by {
                assert(files == files.drop_last().push(files[c - 1]));
                files.drop_last().lemma_flatten_push(files[c - 1]);
            }
        }
    }
    lemma_read_run(files, vols, vol as nat, local as u64, 0, len, false, (3 * files.len() + 3) as nat);
    let rest = files[j].subrange(local, files[j].len() as int) + tail;
    assert(rest == content.subrange(x as int, total as int));
    let m = if len <= rest.len() { len as int } else { rest.len() as int };
    assert(rest.subrange(0, m) == content.subrange(x as int, x + m));
}

/// Full volumes before volume `j + 1` hold `j * v` bytes together.
proof fn lemma_prefix_len(files: Seq<Seq<u8>>, v: int, j: int)
    requires
        0 <= j < files.len(),
        forall|i: int| 0 <= i < files.len() - 1 ==> (#[trigger] files[i].len()) == v,
    ensures
        files.subrange(0, j).flatten().len() == j * v,
    decreases j,
{
    if j > 0 {
        lemma_prefix_len(files, v, j - 1);
        assert(files.subrange(0, j) == files.subrange(0, j - 1).push(files[j - 1]));
        files.subrange(0, j - 1).lemma_flatten_push(files[j - 1]);
        assert((j - 1) * v + v == j * v) by (nonlinear_arith);
    } else {
        assert(files.subrange(0, 0) == Seq::<Seq<u8>>::empty());
    }
}

/// The contents of the volumes from `a` on, in order.
proof fn lemma_flatten_from(files: Seq<Seq<u8>>, a: int)
    requires
        0 <= a < files.len(),
    ensures
        files.subrange(a, files.len() as int).flatten() == files[a] + files.subrange(
            a + 1,
            files.len() as int,
        ).flatten(),
{
    let s = files.subrange(a, files.len() as int);
    assert(s.first() == files[a]);
    assert(s.drop_first() == files.subrange(a + 1, files.len() as int));
}

/// A read run from volume `a`, whose cursor is at `p`, gets what the files
/// hold from there on, up to the room left in the buffer, whatever the
/// cached state of the later volumes.
proof fn lemma_read_run(
    files: Seq<Seq<u8>>,
    vols: Seq<VolumeState>,
    a: nat,
    p: u64,
    done: usize,
    len: usize,
    eof: bool,
    fuel: nat,
)
    requires
        files.len() == vols.len(),
        1 <= a <= vols.len() <= usize::MAX,
        forall|i: int| 0 <= i < files.len() ==> (#[trigger] files[i].len()) <= u64::MAX,
        vols[a - 1] == (VolumeState { pos: p, reset: false }),
        p <= files[a - 1].len(),
        done <= len,
        eof ==> p == files[a - 1].len(),
        done < len ==> fuel >= 3 * (vols.len() - a) + (if eof {
            1int
        } else if p == files[a - 1].len() {
            2int
        } else {
            3int
        }),
    ensures
        ({
            let rest = files[a - 1].subrange(p as int, files[a - 1].len() as int) + files.subrange(
                a as int,
                files.len() as int,
            ).flatten();
            let m = if len - done <= rest.len() {
                len - done
            } else {
                rest.len() as int
            };
            read_run(a, vols, files, done, len, eof, fuel) == rest.subrange(0, m)
        }),
    decreases fuel,
{
    let f = files[a - 1];
    let tail = files.subrange(a as int, files.len() as int).flatten();
    let rest = f.subrange(p as int, f.len() as int) + tail;
    if done >= len {
        assert(read_decision(a, vols, done, len, eof) == (a, Step::Done { count: done }));
        assert(read_run(a, vols, files, done, len, eof, fuel) == Seq::<u8>::empty());
        assert(rest.subrange(0, 0) == Seq::<u8>::empty());
    } else if !eof {
        assert(read_access(a, vols, done, false) == (Step::Read { vol: a as usize, start: done }));
        assert(read_decision(a, vols, done, len, eof) == (a, Step::Read { vol: a as usize, start: done }));
        let avail = f.len() - p;
        let n: int = if len - done <= avail { len - done } else { avail };
        let vols1 = vols.update(a - 1, VolumeState { pos: (p + n) as u64, reset: false });
        let got = f.subrange(p as int, p + n);
        assert(read_run(a, vols, files, done, len, eof, fuel) == got + read_run(a, vols1, files, (done + n) as usize, len, n == 0, (fuel - 1) as nat));
        lemma_read_run(files, vols1, a, (p + n) as u64, (done + n) as usize, len, n == 0, (fuel - 1) as nat);
        let rest1 = f.subrange(p + n, f.len() as int) + tail;
        let m1 = if len - (done + n) <= rest1.len() { len - (done + n) } else { rest1.len() as int };
        let m = if len - done <= rest.len() { len - done } else { rest.len() as int };
        assert(got + rest1.subrange(0, m1) == rest.subrange(0, m)) by {
            assert(rest1 == rest.subrange(n, rest.len() as int));
            assert(got == rest.subrange(0, n));
            assert(m == n + m1);
            assert(rest.subrange(0, n) + rest.subrange(n, rest.len() as int).subrange(0, m1) == rest.subrange(0, m));
        }
    } else if a < vols.len() && (vols[a as int].reset || vols[a as int].pos != 0) {
        assert(read_access(a + 1, vols, done, true) == (Step::Reset { vol: (a + 1) as usize }));
        assert(read_decision(a, vols, done, len, eof) == (a + 1, Step::Reset { vol: (a + 1) as usize }));
        let vols1 = vols.update(a as int, VolumeState { pos: 0, reset: false });
        assert(read_run(a, vols, files, done, len, eof, fuel) == read_run(a + 1, vols1, files, done, len, false, (fuel - 1) as nat));
        lemma_flatten_from(files, a as int);
        lemma_read_run(files, vols1, a + 1, 0, done, len, false, (fuel - 1) as nat);
        assert(files[a as int].subrange(0, files[a as int].len() as int) == files[a as int]);
        assert(f.subrange(p as int, f.len() as int) == Seq::<u8>::empty());
        assert(rest == files[a as int] + files.subrange(a + 1int, files.len() as int).flatten());
    } else if a < vols.len() {
        lemma_flatten_from(files, a as int);
        let g = files[a as int];
        assert(vols[a as int] == fresh_volume());
        assert(read_access(a + 1, vols, done, true) == (Step::Read { vol: (a + 1) as usize, start: done }));
        assert(read_decision(a, vols, done, len, eof) == (a + 1, Step::Read { vol: (a + 1) as usize, start: done }));
        let n: int = if len - done <= g.len() { len - done } else { g.len() as int };
        let vols1 = vols.update(a as int, VolumeState { pos: n as u64, reset: false });
        assert(read_run(a, vols, files, done, len, eof, fuel) == g.subrange(0, n) + read_run(a + 1, vols1, files, (done + n) as usize, len, n == 0, (fuel - 1) as nat));
        lemma_read_run(files, vols1, a + 1, n as u64, (done + n) as usize, len, n == 0, (fuel - 1) as nat);
        let tail1 = files.subrange(a + 1int, files.len() as int).flatten();
        let rest1 = g.subrange(n, g.len() as int) + tail1;
        assert(rest == g + tail1);
        let m1 = if len - (done + n) <= rest1.len() { len - (done + n) } else { rest1.len() as int };
        let m = if len - done <= rest.len() { len - done } else { rest.len() as int };
        assert(g.subrange(0, n) + rest1.subrange(0, m1) == rest.subrange(0, m)) by {
            assert(rest1 == rest.subrange(n, rest.len() as int));
            assert(g.subrange(0, n) == rest.subrange(0, n));
            assert(m == n + m1);
            assert(rest.subrange(0, n) + rest.subrange(n, rest.len() as int).subrange(0, m1) == rest.subrange(0, m));
        }
    } else {
        assert(read_decision(a, vols, done, len, eof) == (a, Step::Done { count: done }));
        assert(files.subrange(a as int, files.len() as int) == Seq::<Seq<u8>>::empty());
        assert(tail == Seq::<u8>::empty());
        assert(rest.len() == 0);
        assert(rest.subrange(0, 0) == Seq::<u8>::empty());
    }
}

} // verus!
