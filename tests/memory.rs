use splitfile::{
    truncate_first, truncate_step, OpenAction, OpenOptions, OpenPlan, RemoveOutcome, SeekAction,
    SeekPos, SplitError, SplitState, Step, TruncateAction,
};

/// Volumes held in memory: the file of volume `k` is at `k - 1`.
pub struct Mem {
    pub files: Vec<Vec<u8>>,
    cursors: Vec<usize>,
    st: Option<SplitState>,
}

#[derive(Debug, PartialEq)]
pub enum MemError {
    NotFound,
    AlreadyExists,
    Split(SplitError),
}

impl From<SplitError> for MemError {
    fn from(e: SplitError) -> MemError {
        MemError::Split(e)
    }
}

impl Mem {
    pub fn new() -> Mem {
        Mem { files: Vec::new(), cursors: Vec::new(), st: None }
    }

    pub fn sizes(&self) -> Vec<usize> {
        self.files.iter().map(|f| f.len()).collect()
    }

    pub fn open(&mut self, opts: &OpenOptions, volsize: u64) -> Result<(), MemError> {
        let mut plan = OpenPlan::new(*opts);
        let mut found: Option<bool> = None;
        let mut opened: usize = 0;
        let mut seek_end = false;
        loop {
            match plan.open_step(found.take()) {
                OpenAction::Truncate => {
                    let mut action = truncate_first();
                    while let TruncateAction::Remove { vol } = action {
                        let outcome = if vol <= self.files.len() {
                            self.files.truncate(vol - 1);
                            RemoveOutcome::Removed
                        } else {
                            RemoveOutcome::NotFound
                        };
                        action = truncate_step(vol, outcome);
                    }
                    assert_eq!(action, TruncateAction::Done);
                }
                OpenAction::Open { vol, flags } => {
                    let exists = vol <= self.files.len();
                    if flags.create_new && exists {
                        return Err(MemError::AlreadyExists);
                    }
                    if !exists {
                        if flags.create || flags.create_new {
                            self.files.push(Vec::new());
                        } else {
                            return Err(MemError::NotFound);
                        }
                    }
                    if flags.truncate {
                        self.files[vol - 1].clear();
                    }
                    opened = vol;
                }
                OpenAction::Probe { vol } => found = Some(vol <= self.files.len()),
                OpenAction::SeekEnd => seek_end = true,
                OpenAction::Done => break,
            }
        }
        assert_eq!(opened, plan.opened());
        self.cursors = vec![0; opened];
        let mut st = SplitState::new(volsize);
        for _ in 1..opened {
            st.add_volume();
        }
        self.st = Some(st);
        if seek_end {
            self.seek(SeekPos::End(0))?;
        }
        Ok(())
    }

    fn state(&mut self) -> &mut SplitState {
        self.st.as_mut().unwrap()
    }

    pub fn read(&mut self, buf: &mut [u8]) -> Result<usize, MemError> {
        let len = buf.len();
        let mut done: usize = 0;
        let mut eof = false;
        loop {
            match self.state().read_step(done, len, eof) {
                Step::Reset { vol } => {
                    self.cursors[vol - 1] = 0;
                    self.state().reset_done(vol, 0);
                    eof = false;
                }
                Step::Read { vol, start } => {
                    let f = &self.files[vol - 1];
                    let c = self.cursors[vol - 1].min(f.len());
                    let n = (len - start).min(f.len() - c);
                    buf[start..start + n].copy_from_slice(&f[c..c + n]);
                    self.cursors[vol - 1] = c + n;
                    self.state().advance(vol, n)?;
                    done += n;
                    eof = n == 0;
                }
                Step::Done { count } => return Ok(count),
                other => panic!("unexpected step {:?}", other),
            }
        }
    }

    pub fn write(&mut self, buf: &[u8]) -> Result<usize, MemError> {
        let len = buf.len();
        let mut done: usize = 0;
        loop {
            match self.state().write_step(done, len)? {
                Step::Reset { vol } => {
                    self.cursors[vol - 1] = 0;
                    self.state().reset_done(vol, 0);
                }
                Step::Write { vol, start, end } => {
                    let c = self.cursors[vol - 1];
                    let f = &mut self.files[vol - 1];
                    if f.len() < c {
                        f.resize(c, 0);
                    }
                    for (i, b) in buf[start..end].iter().enumerate() {
                        if c + i < f.len() {
                            f[c + i] = *b;
                        } else {
                            f.push(*b);
                        }
                    }
                    self.cursors[vol - 1] = c + (end - start);
                    self.state().advance(vol, end - start)?;
                    done = end;
                }
                Step::AddVolume { vol } => {
                    assert_eq!(vol, self.files.len() + 1);
                    self.files.push(Vec::new());
                    self.cursors.push(0);
                    self.state().add_volume();
                }
                Step::Done { count } => return Ok(count),
                other => panic!("unexpected step {:?}", other),
            }
        }
    }

    pub fn seek(&mut self, pos: SeekPos) -> Result<u64, MemError> {
        let mut len: Option<u64> = None;
        loop {
            match self.state().seek_step(pos, len)? {
                SeekAction::MeasureLast => {
                    let size = self.files.last().unwrap().len();
                    *self.cursors.last_mut().unwrap() = size;
                    len = Some(self.state().measure_last(size as u64)?);
                }
                SeekAction::Position { vol, local, target } => {
                    self.cursors[vol - 1] = local as usize;
                    self.state().seek_done(vol, local);
                    return Ok(target);
                }
            }
        }
    }
}

fn create(mem: &mut Mem, volsize: u64) {
    mem.open(OpenOptions::new().write(true).create(true).truncate(true), volsize)
        .expect("create");
}

fn open_read(mem: &mut Mem, volsize: u64) {
    mem.open(OpenOptions::new().read(true), volsize).expect("open");
}

fn pattern(n: usize) -> Vec<u8> {
    (0..n).map(|i| (i * 7 + 3) as u8).collect()
}

#[test]
fn test() {
    let mut mem = Mem::new();
    let mut data: [u8; 99] = [0; 99];
    let mut rdata: [u8; 99] = [0; 99];
    for i in 0..99 {
        data[i] = i as u8;
    }

    mem.open(OpenOptions::new().create_new(true).write(true), 15)
        .expect("error opening file - create");
    assert_eq!(mem.write(&data), Ok(99));
    assert_eq!(mem.sizes(), vec![15, 15, 15, 15, 15, 15, 9]);

    mem.open(OpenOptions::new().read(true), 15).expect("error opening file - read");
    mem.read(&mut rdata).expect("read error");
    for i in 0..data.len() {
        assert_eq!(rdata[i], data[i]);
    }

    let data2: [u8; 30] = [1; 30];
    let mut rdata2: [u8; 30] = [0; 30];
    mem.open(OpenOptions::new().append(true).read(true), 15)
        .expect("error opening file - append");
    assert_eq!(mem.write(&data2), Ok(30));
    mem.seek(SeekPos::Current(-30)).expect("seek error");
    mem.read(&mut rdata2).expect("read error");
    assert_eq!(rdata2, data2);

    let mut rdata2: [u8; 30] = [0; 30];
    mem.open(OpenOptions::new().truncate(true).write(true), 15)
        .expect("file open error - truncate");
    assert_eq!(mem.write(&data2), Ok(30));
    mem.open(OpenOptions::new().read(true), 15).expect("open error - read");
    assert_eq!(mem.read(&mut rdata2), Ok(30));
    assert_eq!(rdata2, data2);
}

#[test]
fn round_trip_various_lengths() {
    for &(n, v) in &[(0usize, 4u64), (3, 4), (4, 4), (12, 4), (13, 4), (1, 1), (10, 1)] {
        let data = pattern(n);
        let mut mem = Mem::new();
        create(&mut mem, v);
        assert_eq!(mem.write(&data), Ok(n));
        open_read(&mut mem, v);
        let mut back = vec![0u8; n];
        assert_eq!(mem.read(&mut back), Ok(n));
        assert_eq!(back, data);
        let mut more = [0u8; 5];
        assert_eq!(mem.read(&mut more), Ok(0));
    }
}

#[test]
fn volume_sizes_after_write() {
    for &(n, v) in &[(1usize, 4u64), (4, 4), (5, 4), (12, 4), (13, 4), (99, 15)] {
        let mut mem = Mem::new();
        create(&mut mem, v);
        mem.write(&pattern(n)).unwrap();
        let count = (n + v as usize - 1) / v as usize;
        let sizes = mem.sizes();
        assert_eq!(sizes.len(), count);
        for s in &sizes[..count - 1] {
            assert_eq!(*s, v as usize);
        }
        assert_eq!(sizes[count - 1], n - v as usize * (count - 1));
    }
}

#[test]
fn full_volume_then_one_byte_starts_a_new_volume() {
    let mut mem = Mem::new();
    create(&mut mem, 6);
    assert_eq!(mem.write(&pattern(6)), Ok(6));
    assert_eq!(mem.sizes(), vec![6]);
    assert_eq!(mem.write(&[9]), Ok(1));
    assert_eq!(mem.sizes(), vec![6, 1]);
}

#[test]
fn seek_from_start_then_read() {
    let data = pattern(23);
    let mut mem = Mem::new();
    create(&mut mem, 5);
    mem.write(&data).unwrap();
    open_read(&mut mem, 5);
    for x in 0..=23usize {
        for l in [0usize, 1, 4, 5, 7, 30] {
            assert_eq!(mem.seek(SeekPos::Start(x as u64)), Ok(x as u64));
            let mut buf = vec![0u8; l];
            let want = &data[x..(x + l).min(23)];
            assert_eq!(mem.read(&mut buf), Ok(want.len()));
            assert_eq!(&buf[..want.len()], want);
        }
    }
}

#[test]
fn seek_past_end_is_held_to_length() {
    let mut mem = Mem::new();
    create(&mut mem, 5);
    mem.write(&pattern(12)).unwrap();
    assert_eq!(mem.seek(SeekPos::Start(40)), Ok(12));
    assert_eq!(mem.seek(SeekPos::Current(3)), Ok(12));
    assert_eq!(mem.seek(SeekPos::Start(7)), Ok(7));
    assert_eq!(mem.seek(SeekPos::Current(2)), Ok(9));
}

#[test]
fn negative_seek_is_invalid() {
    let mut mem = Mem::new();
    create(&mut mem, 5);
    mem.write(&pattern(12)).unwrap();
    assert_eq!(mem.seek(SeekPos::Start(0)), Ok(0));
    assert_eq!(mem.seek(SeekPos::Current(-1)), Err(MemError::Split(SplitError::InvalidInput)));
    assert_eq!(mem.seek(SeekPos::End(-13)), Err(MemError::Split(SplitError::InvalidInput)));
    assert_eq!(mem.seek(SeekPos::End(-12)), Ok(0));
}

#[test]
fn end_seek_reads_nothing_and_write_extends() {
    let mut mem = Mem::new();
    create(&mut mem, 5);
    mem.write(&pattern(12)).unwrap();
    assert_eq!(mem.seek(SeekPos::End(0)), Ok(12));
    let mut buf = [0u8; 4];
    assert_eq!(mem.read(&mut buf), Ok(0));
    assert_eq!(mem.seek(SeekPos::End(0)), Ok(12));
    assert_eq!(mem.write(&[1, 2, 3, 4]), Ok(4));
    assert_eq!(mem.sizes(), vec![5, 5, 5, 1]);
    assert_eq!(mem.seek(SeekPos::End(0)), Ok(16));
}

#[test]
fn end_seek_on_full_last_volume() {
    let mut mem = Mem::new();
    create(&mut mem, 5);
    mem.write(&pattern(10)).unwrap();
    assert_eq!(mem.sizes(), vec![5, 5]);
    assert_eq!(mem.seek(SeekPos::End(0)), Ok(10));
    let mut buf = [0u8; 3];
    assert_eq!(mem.read(&mut buf), Ok(0));
    assert_eq!(mem.write(&[7, 7]), Ok(2));
    assert_eq!(mem.sizes(), vec![5, 5, 2]);
}

#[test]
fn truncate_removes_continuations() {
    let mut mem = Mem::new();
    create(&mut mem, 4);
    mem.write(&pattern(10)).unwrap();
    assert_eq!(mem.sizes(), vec![4, 4, 2]);
    mem.open(OpenOptions::new().truncate(true).write(true), 4).unwrap();
    assert_eq!(mem.sizes(), vec![0]);
    mem.write(&[5, 6]).unwrap();
    open_read(&mut mem, 4);
    let mut buf = [0u8; 10];
    assert_eq!(mem.read(&mut buf), Ok(2));
    assert_eq!(&buf[..2], &[5, 6]);
}

#[test]
fn overwrite_in_the_middle_keeps_sizes() {
    let mut mem = Mem::new();
    create(&mut mem, 4);
    let mut data = pattern(10);
    mem.write(&data).unwrap();
    mem.seek(SeekPos::Start(3)).unwrap();
    mem.write(&[0xAA; 4]).unwrap();
    for i in 3..7 {
        data[i] = 0xAA;
    }
    assert_eq!(mem.sizes(), vec![4, 4, 2]);
    mem.seek(SeekPos::Start(0)).unwrap();
    let mut back = [0u8; 10];
    assert_eq!(mem.read(&mut back), Ok(10));
    assert_eq!(back.to_vec(), data);
}

#[test]
fn open_missing_without_create_fails() {
    let mut mem = Mem::new();
    assert_eq!(mem.open(OpenOptions::new().read(true), 4), Err(MemError::NotFound));
    create(&mut mem, 4);
    assert_eq!(
        mem.open(OpenOptions::new().write(true).create_new(true), 4),
        Err(MemError::AlreadyExists)
    );
}
