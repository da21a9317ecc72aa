use splitfile::{
    truncate_first, truncate_step, OpenAction, OpenPlan, RemoveOutcome, TruncateAction,
    decimal_bytes, safe_add, Filenames, OpenOptions, SeekAction, SeekPos, SplitError, SplitState,
    Step, VolumeFlags, VolumeState,
};

fn flags(read: bool, write: bool, create: bool, create_new: bool, truncate: bool) -> VolumeFlags {
    VolumeFlags { read, write, create, create_new, truncate }
}

#[test]
fn builder_starts_blank_and_sets_each_flag() {
    let o = OpenOptions::new();
    assert!(!o.read && !o.write && !o.append && !o.truncate && !o.create && !o.create_new);
    let mut o = OpenOptions::new();
    o.read(true).write(true).append(true).truncate(true).create(true).create_new(true);
    assert!(o.read && o.write && o.append && o.truncate && o.create && o.create_new);
    o.write(false).create(false);
    assert!(o.read && !o.write && o.append && o.truncate && !o.create && o.create_new);
}

#[test]
fn first_volume_gets_the_user_flags() {
    let mut o = OpenOptions::new();
    o.read(true).append(true).truncate(true).create_new(true);
    assert_eq!(o.volume_flags(true), flags(true, false, false, true, true));
}

#[test]
fn continuation_volume_flags() {
    let mut o = OpenOptions::new();
    o.append(true).truncate(true).create_new(true);
    assert_eq!(o.volume_flags(false), flags(false, true, true, false, false));
    let mut o = OpenOptions::new();
    o.read(true);
    assert_eq!(o.volume_flags(false), flags(true, false, false, false, false));
    let mut o = OpenOptions::new();
    o.write(true);
    assert_eq!(o.volume_flags(false), flags(false, true, true, false, false));
}

#[test]
fn decimal_digits() {
    assert_eq!(decimal_bytes(0), b"0".to_vec());
    assert_eq!(decimal_bytes(7), b"7".to_vec());
    assert_eq!(decimal_bytes(10), b"10".to_vec());
    assert_eq!(decimal_bytes(1204), b"1204".to_vec());
}

#[test]
fn volume_names_by_index() {
    assert_eq!(Filenames::by_index(b"dir/a.tar".to_vec(), 1), b"dir/a.tar".to_vec());
    assert_eq!(Filenames::by_index(b"dir/a.tar".to_vec(), 2), b"dir/a.tar.2".to_vec());
    assert_eq!(Filenames::by_index(b"x".to_vec(), 13), b"x.13".to_vec());
}

#[test]
fn filenames_walk_from_start_index() {
    let mut f = Filenames::new(b"v".to_vec(), 1);
    assert_eq!(f.next(), Some(b"v".to_vec()));
    assert_eq!(f.next(), Some(b"v.2".to_vec()));
    let mut g = Filenames::new(b"v".to_vec(), 2);
    assert_eq!(g.next(), Some(b"v.2".to_vec()));
    assert_eq!(g.next(), Some(b"v.3".to_vec()));
}

#[test]
fn safe_add_cases() {
    assert_eq!(safe_add(10, 5), Ok(15));
    assert_eq!(safe_add(10, -10), Ok(0));
    assert_eq!(safe_add(10, -11), Err(SplitError::InvalidInput));
    assert_eq!(safe_add(u64::MAX, 1), Err(SplitError::Overflow));
    assert_eq!(safe_add(u64::MAX, i64::MIN), Ok(u64::MAX - (1u64 << 63)));
    assert_eq!(safe_add(0, i64::MIN), Err(SplitError::InvalidInput));
}

#[test]
fn fresh_state() {
    let st = SplitState::new(15);
    assert_eq!(st.volsize(), 15);
    assert_eq!(st.index(), 1);
    assert_eq!(st.volume_count(), 1);
    assert_eq!(st.volume(1), VolumeState { pos: 0, reset: false });
    assert_eq!(st.position(), Ok(0));
}

#[test]
fn write_steps_fill_then_extend() {
    let mut st = SplitState::new(4);
    assert_eq!(st.write_step(0, 6), Ok(Step::Write { vol: 1, start: 0, end: 4 }));
    st.advance(1, 4).unwrap();
    assert_eq!(st.write_step(4, 6), Ok(Step::AddVolume { vol: 2 }));
    st.add_volume();
    assert_eq!(st.write_step(4, 6), Ok(Step::Write { vol: 2, start: 4, end: 6 }));
    assert_eq!(st.index(), 2);
    st.advance(2, 2).unwrap();
    assert_eq!(st.write_step(6, 6), Ok(Step::Done { count: 6 }));
    assert_eq!(st.position(), Ok(6));
}

#[test]
fn read_steps_move_on_at_end_of_volume() {
    let mut st = SplitState::new(4);
    st.add_volume();
    assert_eq!(st.read_step(0, 6, false), Step::Read { vol: 1, start: 0 });
    st.advance(1, 4).unwrap();
    assert_eq!(st.read_step(4, 6, false), Step::Read { vol: 1, start: 4 });
    assert_eq!(st.read_step(4, 6, true), Step::Read { vol: 2, start: 4 });
    assert_eq!(st.index(), 2);
    assert_eq!(st.read_step(4, 6, true), Step::Done { count: 4 });
}

#[test]
fn seek_measures_then_places() {
    let mut st = SplitState::new(10);
    st.add_volume();
    st.add_volume();
    assert_eq!(st.seek_step(SeekPos::End(-3), None), Ok(SeekAction::MeasureLast));
    assert_eq!(st.measure_last(4), Ok(24));
    assert_eq!(st.volume(3), VolumeState { pos: 4, reset: true });
    assert_eq!(
        st.seek_step(SeekPos::End(-3), Some(24)),
        Ok(SeekAction::Position { vol: 3, local: 1, target: 21 })
    );
    assert_eq!(
        st.seek_step(SeekPos::Start(13), None),
        Ok(SeekAction::Position { vol: 2, local: 3, target: 13 })
    );
    assert_eq!(st.seek_step(SeekPos::Start(25), None), Ok(SeekAction::MeasureLast));
    assert_eq!(
        st.seek_step(SeekPos::Start(25), Some(24)),
        Ok(SeekAction::Position { vol: 3, local: 4, target: 24 })
    );
    st.seek_done(2, 3);
    assert_eq!(st.index(), 2);
    assert_eq!(st.volume(2), VolumeState { pos: 3, reset: false });
    assert_eq!(st.volume(3), VolumeState { pos: 4, reset: true });
    assert_eq!(st.position(), Ok(13));
    assert_eq!(
        st.seek_step(SeekPos::Current(-20), None),
        Err(SplitError::InvalidInput)
    );
}

#[test]
fn measure_last_overflow() {
    let mut st = SplitState::new(u64::MAX);
    st.add_volume();
    assert_eq!(st.measure_last(1), Err(SplitError::Overflow));
}

#[test]
fn filenames_stop_at_the_largest_index() {
    let mut f = Filenames::new(b"v".to_vec(), usize::MAX);
    let mut want = b"v.".to_vec();
    want.extend_from_slice(usize::MAX.to_string().as_bytes());
    assert_eq!(f.next(), Some(want));
    assert_eq!(f.next(), None);
}

#[test]
fn reading_and_creating_options() {
    let r = OpenOptions::reading();
    assert!(r.read && !r.write && !r.append && !r.truncate && !r.create && !r.create_new);
    let c = OpenOptions::creating();
    assert!(!c.read && c.write && !c.append && c.truncate && c.create && !c.create_new);
}

#[test]
fn truncation_walks_up_from_volume_two() {
    assert_eq!(truncate_first(), TruncateAction::Remove { vol: 2 });
    assert_eq!(truncate_step(2, RemoveOutcome::Removed), TruncateAction::Remove { vol: 3 });
    assert_eq!(truncate_step(3, RemoveOutcome::NotFound), TruncateAction::Done);
    assert_eq!(truncate_step(3, RemoveOutcome::Failed), TruncateAction::Fail);
    assert_eq!(truncate_step(usize::MAX, RemoveOutcome::Removed), TruncateAction::Done);
}

#[test]
fn open_plan_truncates_then_discovers() {
    let mut plan = OpenPlan::new(*OpenOptions::new().write(true).truncate(true).append(true));
    assert_eq!(plan.open_step(None), OpenAction::Truncate);
    assert_eq!(
        plan.open_step(None),
        OpenAction::Open { vol: 1, flags: flags(false, true, false, false, true) }
    );
    assert_eq!(plan.open_step(None), OpenAction::Probe { vol: 2 });
    assert_eq!(
        plan.open_step(Some(true)),
        OpenAction::Open { vol: 2, flags: flags(false, true, true, false, false) }
    );
    assert_eq!(plan.open_step(None), OpenAction::Probe { vol: 3 });
    assert_eq!(plan.open_step(Some(false)), OpenAction::SeekEnd);
    assert_eq!(plan.open_step(None), OpenAction::Done);
    assert_eq!(plan.opened(), 2);
}

#[test]
fn open_plan_without_append_ends_after_discovery() {
    let mut plan = OpenPlan::new(OpenOptions::reading());
    assert_eq!(
        plan.open_step(None),
        OpenAction::Open { vol: 1, flags: flags(true, false, false, false, false) }
    );
    assert_eq!(plan.open_step(None), OpenAction::Probe { vol: 2 });
    assert_eq!(plan.open_step(Some(false)), OpenAction::Done);
    assert_eq!(plan.opened(), 1);
}
