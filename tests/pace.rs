use termgame::pace::Syncer;

const MS: u64 = 1_000_000;

#[test]
fn fps_gives_the_interval() {
    assert_eq!(Syncer::from_fps(10).interval, 100 * MS);
    assert_eq!(Syncer::from_fps(3).interval, 333_333_333);
    assert_eq!(Syncer::from_fps(1).interval, 1_000_000_000);
}

#[test]
fn zero_time_frames_are_spaced_one_interval() {
    let mut s = Syncer::from_fps(10);
    let sleep1 = s.sync_at(0);
    assert_eq!(sleep1, 100 * MS);
    let wake1 = sleep1;
    let sleep2 = s.sync_at(wake1);
    assert_eq!(sleep2, 100 * MS);
    assert_eq!(s.prevtime, 200 * MS);
}

#[test]
fn overrun_frame_gets_no_sleep() {
    let mut s = Syncer::from_fps(10);
    let wake1 = s.sync_at(0);
    assert_eq!(wake1, 100 * MS);
    // the next frame body takes 150ms
    let sleep2 = s.sync_at(wake1 + 150 * MS);
    assert_eq!(sleep2, 0);
    assert_eq!(s.prevtime, 200 * MS);
    // the frame after that is owed only the rest of its interval
    let sleep3 = s.sync_at(wake1 + 150 * MS);
    assert_eq!(sleep3, 50 * MS);
    assert_eq!(s.prevtime, 300 * MS);
}

#[test]
fn partial_frame_sleeps_the_rest() {
    let mut s = Syncer::new(100);
    assert_eq!(s.sync_at(30), 70);
    assert_eq!(s.sync_at(100), 100);
    assert_eq!(s.sync_at(250), 50);
}

#[test]
fn sync_reads_the_clock() {
    let mut s = Syncer::new(u64::MAX / 2);
    let sleep = s.sync();
    assert!(sleep <= u64::MAX / 2);
    assert_eq!(s.prevtime, u64::MAX / 2);
}

#[test]
fn sync_at_the_end_of_the_range_stays_put() {
    let mut s = Syncer::new(u64::MAX);
    s.prevtime = 1;
    assert_eq!(s.sync(), 0);
    assert_eq!(s.prevtime, 1);
}
