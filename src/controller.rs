//! The split-file controller: the volumes' cached cursors, the active
//! volume, and the decisions of read, write and seek.
//!
//! The controller performs no I/O. Each operation is a loop in which the
//! caller asks for the next step, performs it on the volume files, and
//! reports what happened; the controller updates its cached state.
use vstd::prelude::*;
use crate::offsets::{SplitError, add_offset, safe_add};

verus! {

/// The cached state of one volume.
#[derive(Clone, Copy, Debug, PartialEq, Eq, Structural)]
pub struct VolumeState {
    /// The cursor, in bytes from the start of this volume's file.
    pub pos: u64,
    /// The real cursor must be moved to 0 before this volume is used.
    pub reset: bool,
}

/// A seek request, relative to the start, the end or the current position
/// of the logical file.
#[derive(Clone, Copy, Debug, PartialEq, Eq, Structural)]
pub enum SeekPos {
    Start(u64),
    End(i64),
    Current(i64),
}

/// The next thing a read or a write asks of the caller. Volumes are
/// numbered from 1.
#[derive(Clone, Copy, Debug, PartialEq, Eq, Structural)]
pub enum Step {
    /// Move the cursor of volume `vol` to 0 and report it with `reset_done`.
    Reset { vol: usize },
    /// Read from volume `vol` into the buffer from `start` on, and report
    /// the count with `advance`.
    Read { vol: usize, start: usize },
    /// Write all of the buffer's bytes `start..end` to volume `vol`, and
    /// report the count with `advance`.
    Write { vol: usize, start: usize, end: usize },
    /// Open volume `vol` as a new continuation and report it with
    /// `add_volume`.
    AddVolume { vol: usize },
    /// The transfer is over, `count` bytes in all.
    Done { count: usize },
}

/// The next thing a seek asks of the caller.
#[derive(Clone, Copy, Debug, PartialEq, Eq, Structural)]
pub enum SeekAction {
    /// Move the last volume's cursor to its end, report its size with
    /// `measure_last`, and ask again with the length that returns.
    MeasureLast,
    /// Move the cursor of volume `vol` to `local` and report it with
    /// `seek_done`; `target` is the new logical offset.
    Position { vol: usize, local: u64, target: u64 },
}

/// A volume just created or just opened: cursor at 0, in sync.
pub open spec fn fresh_volume() -> VolumeState {
    VolumeState { pos: 0, reset: false }
}

/// The read step on volume `k`; one that the read has just `entered` must
/// stand at its start.
pub open spec fn read_access(k: nat, vols: Seq<VolumeState>, done: usize, entered: bool) -> Step {
    let cur = vols[k - 1];
    if cur.reset || (entered && cur.pos != 0) {
        Step::Reset { vol: k as usize }
    } else {
        Step::Read { vol: k as usize, start: done }
    }
}

/// What a read that has filled `done` of `len` bytes decides, with active
/// volume `k` and volume states `vols`; `eof` tells that the last read of
/// the active volume gave no byte. The result is the active volume
/// afterwards, and the step.
///
/// The read stays on the active volume until it gives no more bytes, then
/// goes on to the next volume, and ends after the last one.
pub open spec fn read_decision(
    k: nat,
    vols: Seq<VolumeState>,
    done: usize,
    len: usize,
    eof: bool,
) -> (nat, Step) {
    if done >= len {
        (k, Step::Done { count: done })
    } else if !eof {
        (k, read_access(k, vols, done, false))
    } else if k < vols.len() {
        (k + 1, read_access(k + 1, vols, done, true))
    } else {
        (k, Step::Done { count: done })
    }
}

/// The end of the chunk written to a volume of size `v` whose cursor is at
/// `pos`: up to the volume's size, or up to the end of the buffer.
pub open spec fn chunk_end(v: nat, pos: u64, done: usize, len: usize) -> usize {
    if len - done <= v - pos {
        len
    } else {
        (done + v - pos) as usize
    }
}

/// The write step on volume `k`; one that the write has just `entered`
/// must stand at its start.
pub open spec fn write_access(
    v: nat,
    k: nat,
    vols: Seq<VolumeState>,
    done: usize,
    len: usize,
    entered: bool,
) -> Step {
    let cur = vols[k - 1];
    if cur.reset || (entered && cur.pos != 0) {
        Step::Reset { vol: k as usize }
    } else {
        Step::Write { vol: k as usize, start: done, end: chunk_end(v, cur.pos, done, len) }
    }
}

/// What a write that has written `done` of `len` bytes decides, with
/// volumes of size `v`, active volume `k` and volume states `vols`: the
/// active volume afterwards, and the step.
///
/// The active volume is written up to the volume size; once it is full
/// the write moves to the next volume, and past the last one it asks for
/// a new volume.
pub open spec fn write_decision(
    v: nat,
    k: nat,
    vols: Seq<VolumeState>,
    done: usize,
    len: usize,
) -> (nat, Result<Step, SplitError>) {
    if done >= len {
        (k, Ok(Step::Done { count: done }))
    } else if vols[k - 1].reset || vols[k - 1].pos < v {
        (k, Ok(write_access(v, k, vols, done, len, false)))
    } else if k < vols.len() {
        (k + 1, Ok(write_access(v, k + 1, vols, done, len, true)))
    } else if vols.len() < usize::MAX {
        (k, Ok(Step::AddVolume { vol: (vols.len() + 1) as usize }))
    } else {
        (k, Err(SplitError::Overflow))
    }
}

/// The contents of a file after `chunk` is written at offset `c`: the
/// bytes before `c` stay (a gap is filled with zeros), the chunk replaces
/// what lay under it, and the bytes after it stay.
pub open spec fn overwrite(f: Seq<u8>, c: int, chunk: Seq<u8>) -> Seq<u8> {
    let head = if c <= f.len() {
        f.subrange(0, c)
    } else {
        f + Seq::new((c - f.len()) as nat, |i: int| 0u8)
    };
    let tail = if c + chunk.len() < f.len() {
        f.subrange(c + chunk.len(), f.len() as int)
    } else {
        Seq::empty()
    };
    head + chunk + tail
}

/// The active volume, the volume states and the volume files' contents
/// after a write of `buf`, from `done` on, has run for at most `fuel`
/// steps, each step performed as `write_step` asks and reported as
/// `reset_done`, `advance` and `add_volume` record it: a reset moves a
/// cursor to 0, a chunk is written whole at the volume's cursor, a volume
/// is added fresh and empty.
pub open spec fn write_run(
    v: nat,
    k: nat,
    vols: Seq<VolumeState>,
    files: Seq<Seq<u8>>,
    buf: Seq<u8>,
    done: usize,
    fuel: nat,
) -> (nat, Seq<VolumeState>, Seq<Seq<u8>>)
    decreases fuel,
{
    if fuel == 0 || buf.len() > usize::MAX {
        (k, vols, files)
    } else {
        let (k2, r) = write_decision(v, k, vols, done, buf.len() as usize);
        match r {
            Ok(Step::Write { vol, start, end }) => write_run(
                v,
                k2,
                vols.update(
                    vol - 1,
                    VolumeState {
                        pos: (vols[vol - 1].pos + (end - start)) as u64,
                        reset: vols[vol - 1].reset,
                    },
                ),
                files.update(
                    vol - 1,
                    overwrite(files[vol - 1], vols[vol - 1].pos as int, buf.subrange(start as int, end as int)),
                ),
                buf,
                end,
                (fuel - 1) as nat,
            ),
            Ok(Step::Reset { vol }) => write_run(
                v,
                k2,
                vols.update(vol - 1, VolumeState { pos: 0, reset: false }),
                files,
                buf,
                done,
                (fuel - 1) as nat,
            ),
            Ok(Step::AddVolume { vol }) => write_run(
                v,
                k2,
                vols.push(fresh_volume()),
                files.push(Seq::empty()),
                buf,
                done,
                (fuel - 1) as nat,
            ),
            _ => (k2, vols, files),
        }
    }
}

/// The bytes that a read of `len` bytes, from `done` on, gets when it runs
/// for at most `fuel` steps over volume files holding `files`, each step
/// performed as `read_step` asks and reported as `reset_done` and
/// `advance` record it. Each read of a volume gets what its file holds
/// from the cursor on, as much as the buffer has room for.
pub open spec fn read_run(
    k: nat,
    vols: Seq<VolumeState>,
    files: Seq<Seq<u8>>,
    done: usize,
    len: usize,
    eof: bool,
    fuel: nat,
) -> Seq<u8>
    decreases fuel,
{
    if fuel == 0 {
        Seq::empty()
    } else {
        let (k2, step) = read_decision(k, vols, done, len, eof);
        match step {
            Step::Reset { vol } => read_run(
                k2,
                vols.update(vol - 1, VolumeState { pos: 0, reset: false }),
                files,
                done,
                len,
                false,
                (fuel - 1) as nat,
            ),
            Step::Read { vol, start } => {
                let f = files[vol - 1];
                let c = vols[vol - 1].pos as int;
                let avail = if c <= f.len() {
                    f.len() - c
                } else {
                    0
                };
                let n = if len - start <= avail {
                    len - start
                } else {
                    avail
                };
                f.subrange(c, c + n) + read_run(
                    k2,
                    vols.update(
                        vol - 1,
                        VolumeState { pos: (c + n) as u64, reset: vols[vol - 1].reset },
                    ),
                    files,
                    (start + n) as usize,
                    len,
                    n == 0,
                    (fuel - 1) as nat,
                )
            },
            _ => Seq::empty(),
        }
    }
}

/// The product of two `u64` values plus a third stays below `u128::MAX`.
proof fn lemma_product_fits(a: nat, b: nat)
    requires
        a <= u64::MAX,
        b <= u64::MAX,
    ensures
        a * b + u64::MAX <= u128::MAX,
{
    assert(a * b <= u64::MAX * u64::MAX) by (nonlinear_arith)
        requires
            a <= u64::MAX,
            b <= u64::MAX,
    ;
}

/// The logical position of split data: volume index, size and cursors.
#[derive(Debug)]
pub struct SplitState {
    volsize: u64,
    index: usize,
    volumes: Vec<VolumeState>,
}

impl SplitState {
    /// The maximum size of a volume.
    pub closed spec fn volsize_spec(&self) -> nat {
        self.volsize as nat
    }

    /// The active volume, from 1.
    pub closed spec fn active(&self) -> nat {
        self.index as nat
    }

    /// The cached state of each volume; volume `k` is at `k - 1`.
    pub closed spec fn vols(&self) -> Seq<VolumeState> {
        self.volumes@
    }

    pub open spec fn count(&self) -> nat {
        self.vols().len()
    }

    /// At least one volume, a positive volume size, and an active volume
    /// that exists.
    pub open spec fn wf(&self) -> bool {
        &&& 0 < self.volsize_spec() <= u64::MAX
        &&& 1 <= self.active() <= self.count() <= usize::MAX
    }

    /// The state of volume `k` (from 1).
    pub open spec fn vol(&self, k: int) -> VolumeState {
        self.vols()[k - 1]
    }

    /// The logical offset of the cursor.
    pub open spec fn logical_pos(&self) -> int {
        (self.active() - 1) * self.volsize_spec() + self.vol(self.active() as int).pos
    }

    /// The logical length when the last volume holds `last` bytes.
    pub open spec fn length_with(&self, last: int) -> int {
        (self.count() - 1) * self.volsize_spec() + last
    }

    /// The volume that holds logical offset `target`, the last one for an
    /// offset at or past its start.
    pub open spec fn volume_of(&self, target: int) -> int {
        if target / (self.volsize_spec() as int) + 1 >= self.count() {
            self.count() as int
        } else {
            target / (self.volsize_spec() as int) + 1
        }
    }

    /// Where a seek to `target` places the cursor.
    pub open spec fn place(&self, target: u64) -> SeekAction {
        let vol = self.volume_of(target as int);
        SeekAction::Position {
            vol: vol as usize,
            local: (target - (vol - 1) * self.volsize_spec()) as u64,
            target,
        }
    }

    /// The offset a seek asks for, before it is held to the length.
    pub open spec fn raw_target(&self, pos: SeekPos, len: u64) -> Result<u64, SplitError> {
        match pos {
            SeekPos::Start(o) => Ok(o),
            SeekPos::End(o) => add_offset(len as int, o as int),
            SeekPos::Current(o) => if self.logical_pos() > u64::MAX {
                Err(SplitError::Overflow)
            } else {
                add_offset(self.logical_pos(), o as int)
            },
        }
    }

    /// What a seek decides, given the logical length where it is known.
    ///
    /// A target that lies in or past the last volume is held to the
    /// logical length, so that no seek goes past the end of the data; that
    /// needs the length, which is measured first where it is not known.
    pub open spec fn seek_decision(&self, pos: SeekPos, len: Option<u64>) -> Result<
        SeekAction,
        SplitError,
    > {
        if pos is End && len is None {
            Ok(SeekAction::MeasureLast)
        } else {
            match self.raw_target(pos, len.unwrap_or(0)) {
                Err(e) => Err(e),
                Ok(t) => if (t as int) / (self.volsize_spec() as int) + 1 >= self.count() {
                    match len {
                        None => Ok(SeekAction::MeasureLast),
                        Some(l) => Ok(self.place(if t <= l { t } else { l })),
                    }
                } else {
                    Ok(self.place(t))
                },
            }
        }
    }

    /// A state with one fresh volume, active.
    pub fn new(volsize: u64) -> (r: SplitState)
        requires
            volsize > 0,
        ensures
            r.wf(),
            r.volsize_spec() == volsize,
            r.active() == 1,
            r.vols() == seq![fresh_volume()],
    {
        SplitState { volsize, index: 1, volumes: vec![VolumeState { pos: 0, reset: false }] }
    }

    /// The maximum size of a volume.
    pub fn volsize(&self) -> (r: u64)
        ensures
            r == self.volsize_spec(),
    {
        self.volsize
    }

    /// The active volume, from 1.
    pub fn index(&self) -> (r: usize)
        ensures
            r == self.active(),
    {
        self.index
    }

    /// The number of volumes.
    pub fn volume_count(&self) -> (r: usize)
        ensures
            r == self.count(),
    {
        self.volumes.len()
    }

    /// The cached state of volume `k` (from 1).
    pub fn volume(&self, k: usize) -> (r: VolumeState)
        requires
            1 <= k <= self.count(),
        ensures
            r == self.vol(k as int),
    {
        self.volumes[k - 1]
    }

    /// Appends a fresh volume after the last one.
    pub fn add_volume(&mut self)
        requires
            old(self).wf(),
            old(self).count() < usize::MAX,
        ensures
            final(self).wf(),
            final(self).volsize_spec() == old(self).volsize_spec(),
            final(self).active() == old(self).active(),
            final(self).vols() == old(self).vols().push(fresh_volume()),
    {
        self.volumes.push(VolumeState { pos: 0, reset: false });
    }

    /// The logical offset of the cursor, where it fits in a `u64`.
    pub fn position(&self) -> (r: Result<u64, SplitError>)
        requires
            self.wf(),
        ensures
            r == (if self.logical_pos() <= u64::MAX {
                Ok(self.logical_pos() as u64)
            } else {
                Err(SplitError::Overflow)
            }),
    {
        proof {
            lemma_product_fits((self.index - 1) as nat, self.volsize as nat);
        }
        let before = (self.index - 1) as u128 * self.volsize as u128;
        let total = before + self.volumes[self.index - 1].pos as u128;
        if total <= u64::MAX as u128 {
            Ok(total as u64)
        } else {
            Err(SplitError::Overflow)
        }
    }

    /// Records the size of the last volume, whose cursor now stands at its
    /// end and is to be reset before its next use, and returns the logical
    /// length.
    pub fn measure_last(&mut self, size: u64) -> (r: Result<u64, SplitError>)
        requires
            old(self).wf(),
        ensures
            final(self).wf(),
            final(self).volsize_spec() == old(self).volsize_spec(),
            final(self).active() == old(self).active(),
            final(self).vols() == old(self).vols().update(
                old(self).count() - 1,
                VolumeState { pos: size, reset: true },
            ),
            r == (if old(self).length_with(size as int) <= u64::MAX {
                Ok(old(self).length_with(size as int) as u64)
            } else {
                Err(SplitError::Overflow)
            }),
    {
        let n = self.volumes.len();
        self.volumes.set(n - 1, VolumeState { pos: size, reset: true });
        proof {
            lemma_product_fits((n - 1) as nat, self.volsize as nat);
        }
        let total = (n - 1) as u128 * self.volsize as u128 + size as u128;
        if total <= u64::MAX as u128 {
            Ok(total as u64)
        } else {
            Err(SplitError::Overflow)
        }
    }
    /// Decides the next action of a seek to `pos`; `len` is the logical
    /// length where the caller has measured it.
    pub fn seek_step(&self, pos: SeekPos, len: Option<u64>) -> (r: Result<SeekAction, SplitError>)
        requires
            self.wf(),
        ensures
            r == self.seek_decision(pos, len),
    {
        let raw: u64 = match pos {
            SeekPos::Start(o) => o,
            SeekPos::End(o) => match len {
                None => {
                    return Ok(SeekAction::MeasureLast);
                },
                Some(l) => safe_add(l, o)?,
            },
            SeekPos::Current(o) => {
                let cur = self.position()?;
                safe_add(cur, o)?
            },
        };
        let n = self.volumes.len();
        let target: u64 = if raw / self.volsize >= (n - 1) as u64 {
            match len {
                None => {
                    return Ok(SeekAction::MeasureLast);
                },
                Some(l) => if raw <= l {
                    raw
                } else {
                    l
                },
            }
        } else {
            raw
        };
        Ok(self.place_exec(target))
    }

    fn place_exec(&self, target: u64) -> (r: SeekAction)
        requires
            self.wf(),
        ensures
            r == self.place(target),
    {
        let n = self.volumes.len();
        let q = target / self.volsize;
        let vol: usize = if q >= (n - 1) as u64 {
            n
        } else {
            q as usize + 1
        };
        proof {
            let v = self.volsize as int;
            let t = target as int;
            assert((vol - 1) as int <= t / v);
            assert((vol - 1) * v <= (t / v) * v) by (nonlinear_arith)
                requires
                    (vol - 1) as int <= t / v,
                    v > 0,
            ;
            assert((t / v) * v <= t) by (nonlinear_arith)
                requires
                    v > 0,
                    t >= 0,
            ;
        }
        let local = target - (vol - 1) as u64 * self.volsize;
        SeekAction::Position { vol, local, target }
    }

    /// Records that volume `vol`'s cursor was moved to `p` by a seek: it
    /// becomes the active volume, and every volume after it is to be reset
    /// before its next use.
    pub fn seek_done(&mut self, vol: usize, p: u64)
        requires
            old(self).wf(),
            1 <= vol <= old(self).count(),
        ensures
            final(self).wf(),
            final(self).volsize_spec() == old(self).volsize_spec(),
            final(self).active() == vol,
            final(self).count() == old(self).count(),
            final(self).vol(vol as int) == (VolumeState { pos: p, reset: false }),
            forall|k: int| 1 <= k < vol ==> #[trigger] final(self).vol(k) == old(self).vol(k),
            forall|k: int|
                vol < k <= old(self).count() ==> #[trigger] final(self).vol(k) == (VolumeState {
                    pos: old(self).vol(k).pos,
                    reset: true,
                }),
    {
        self.index = vol;
        self.volumes.set(vol - 1, VolumeState { pos: p, reset: false });
        let n = self.volumes.len();
        let mut k: usize = vol;
        while k < n
            invariant
                1 <= vol <= k <= n,
                n == self.volumes.len() == old(self).count(),
                self.volsize == old(self).volsize,
                self.index == vol,
                self.volumes@[vol - 1] == (VolumeState { pos: p, reset: false }),
                forall|j: int| 0 <= j < vol - 1 ==> #[trigger] self.volumes@[j] == old(self).vols()[j],
                forall|j: int|
                    vol <= j < k ==> #[trigger] self.volumes@[j] == (VolumeState {
                        pos: old(self).vols()[j].pos,
                        reset: true,
                    }),
                forall|j: int| k <= j < n ==> #[trigger] self.volumes@[j] == old(self).vols()[j],
            decreases n - k,
        {
            let pos = self.volumes[k].pos;
            self.volumes.set(k, VolumeState { pos, reset: true });
            k = k + 1;
        }
    }

    /// Records that volume `vol`'s cursor was moved to `p` to resolve a
    /// pending reset.
    pub fn reset_done(&mut self, vol: usize, p: u64)
        requires
            old(self).wf(),
            1 <= vol <= old(self).count(),
        ensures
            final(self).wf(),
            final(self).volsize_spec() == old(self).volsize_spec(),
            final(self).active() == old(self).active(),
            final(self).vols() == old(self).vols().update(
                vol - 1,
                VolumeState { pos: p, reset: false },
            ),
    {
        self.volumes.set(vol - 1, VolumeState { pos: p, reset: false });
    }

    /// Records that `n` bytes were read from or written to volume `vol`,
    /// moving its cursor forward; fails where the cursor would pass
    /// `u64::MAX`.
    pub fn advance(&mut self, vol: usize, n: usize) -> (r: Result<(), SplitError>)
        requires
            old(self).wf(),
            1 <= vol <= old(self).count(),
        ensures
            final(self).wf(),
            final(self).volsize_spec() == old(self).volsize_spec(),
            final(self).active() == old(self).active(),
            old(self).vol(vol as int).pos + n <= u64::MAX ==> {
                &&& r is Ok
                &&& final(self).vols() == old(self).vols().update(
                    vol - 1,
                    VolumeState { pos: (old(self).vol(vol as int).pos + n) as u64, ..old(self).vol(vol as int) },
                )
            },
            old(self).vol(vol as int).pos + n > u64::MAX ==> {
                &&& r == Err::<(), SplitError>(SplitError::Overflow)
                &&& final(self).vols() == old(self).vols()
            },
    {
        let v = self.volumes[vol - 1];
        if n as u64 > u64::MAX - v.pos {
            Err(SplitError::Overflow)
        } else {
            self.volumes.set(vol - 1, VolumeState { pos: v.pos + n as u64, reset: v.reset });
            Ok(())
        }
    }
    /// Decides the next step of a read that has filled `done` of `len`
    /// bytes; `eof` tells that the last read of the active volume gave no
    /// byte. The read goes on through the volumes after the active one,
    /// and never creates a volume.
    pub fn read_step(&mut self, done: usize, len: usize, eof: bool) -> (r: Step)
        requires
            old(self).wf(),
        ensures
            final(self).wf(),
            final(self).volsize_spec() == old(self).volsize_spec(),
            final(self).vols() == old(self).vols(),
            (final(self).active(), r) == read_decision(old(self).active(), old(self).vols(), done, len, eof),
    {
        if done >= len {
            return Step::Done { count: done };
        }
        let mut entered = false;
        if eof {
            if self.index == self.volumes.len() {
                return Step::Done { count: done };
            }
            self.index = self.index + 1;
            entered = true;
        }
        let k = self.index;
        let v = self.volumes[k - 1];
        if v.reset || (entered && v.pos != 0) {
            Step::Reset { vol: k }
        } else {
            Step::Read { vol: k, start: done }
        }
    }

    fn chunk(&self, vol: usize, pos: u64, done: usize, len: usize) -> (r: Step)
        requires
            self.wf(),
            pos < self.volsize_spec(),
            done < len,
        ensures
            r == (Step::Write { vol, start: done, end: chunk_end(self.volsize_spec(), pos, done, len) }),
    {
        let room: u64 = self.volsize - pos;
        let rest: usize = len - done;
        let end: usize = if rest as u64 <= room {
            len
        } else {
            done + room as usize
        };
        Step::Write { vol, start: done, end }
    }

    /// Decides the next step of a write that has written `done` of `len`
    /// bytes. A volume is written up to the volume size and never past it;
    /// once the active volume is full the write moves to the next one, and
    /// past the last volume it asks for a new one. A write thus never comes
    /// up short.
    pub fn write_step(&mut self, done: usize, len: usize) -> (r: Result<Step, SplitError>)
        requires
            old(self).wf(),
        ensures
            final(self).wf(),
            final(self).volsize_spec() == old(self).volsize_spec(),
            final(self).vols() == old(self).vols(),
            (final(self).active(), r) == write_decision(
                old(self).volsize_spec(),
                old(self).active(),
                old(self).vols(),
                done,
                len,
            ),
            r matches Ok(Step::Write { vol, start, end }) ==> {
                &&& vol == final(self).active()
                &&& start == done
                &&& done < end <= len
                &&& final(self).vol(vol as int).pos + (end - start) <= final(self).volsize_spec()
                &&& (end == len || final(self).vol(vol as int).pos + (end - start)
                    == final(self).volsize_spec())
            },
    {
        if done >= len {
            return Ok(Step::Done { count: done });
        }
        let k = self.index;
        let v = self.volumes[k - 1];
        if v.reset {
            return Ok(Step::Reset { vol: k });
        }
        if v.pos < self.volsize {
            return Ok(self.chunk(k, v.pos, done, len));
        }
        let n = self.volumes.len();
        if k < n {
            self.index = k + 1;
            let w = self.volumes[k];
            if w.reset || w.pos != 0 {
                Ok(Step::Reset { vol: k + 1 })
            } else {
                Ok(self.chunk(k + 1, 0, done, len))
            }
        } else if n < usize::MAX {
            Ok(Step::AddVolume { vol: n + 1 })
        } else {
            Err(SplitError::Overflow)
        }
    }
}

} // verus!
