use trap_engine::config::{check_settings, pixel_type_of, CameraSettings, Settings, SettingsError};
use trap_engine::pipeline::{
    capture_step, snapshot_path, CaptureAction, CaptureEvent, CaptureState, PersistQueue, ScoreStage,
};
use trap_engine::pixels::PixelType;

fn settings(format: &str, width: u32, height: u32, ratio: u32) -> Settings {
    Settings {
        camera: CameraSettings { width, height, format: format.to_string(), frame_rate: 30 },
        downsample_ratio: ratio,
        sobel_thresh: 100,
        edge_thresh: 8,
        output_path: "/tmp/shots".to_string(),
        output_buffer_size: 1,
    }
}

/// A YUYV frame whose luma is 255 left of column `split` and 0 elsewhere.
fn split_frame(width: usize, height: usize, split: usize) -> Vec<u8> {
    let mut f = Vec::new();
    for _ in 0..height {
        for x in 0..width {
            f.push(if x < split { 255 } else { 0 });
            f.push(128);
        }
    }
    f
}

#[test]
fn persist_queue_drops_newest_when_full() {
    let mut q = PersistQueue::new(1);
    assert_eq!(q.try_send(vec![1u8]), Ok(()));
    assert_eq!(q.try_send(vec![2u8]), Err(vec![2u8]));
    assert_eq!(q.len(), 1);
    assert_eq!(q.recv(), Some(vec![1u8]));
    assert_eq!(q.recv(), None);
}

#[test]
fn persist_queue_is_fifo() {
    let mut q = PersistQueue::new(3);
    for i in 0..5u8 {
        let r = q.try_send(i);
        assert_eq!(r.is_ok(), i < 3);
    }
    assert_eq!(q.recv(), Some(0));
    assert_eq!(q.try_send(9), Ok(()));
    assert_eq!(q.recv(), Some(1));
    assert_eq!(q.recv(), Some(2));
    assert_eq!(q.recv(), Some(9));
    assert_eq!(q.recv(), None);
}

#[test]
fn persist_queue_of_capacity_zero_drops_all() {
    let mut q = PersistQueue::new(0);
    assert_eq!(q.try_send(4u8), Err(4));
    assert_eq!(q.len(), 0);
}

#[test]
fn settings_are_checked() {
    assert_eq!(check_settings(&settings("YUYV", 640, 480, 4)), Ok(PixelType::YUYV));
    assert_eq!(check_settings(&settings("MJPG", 640, 480, 4)), Err(SettingsError::UnsupportedFormat));
    assert_eq!(check_settings(&settings("YUYV", 640, 480, 0)), Err(SettingsError::ZeroRatio));
    assert_eq!(check_settings(&settings("YUYV", 70000, 70000, 4)), Err(SettingsError::FrameTooLarge));
    assert_eq!(pixel_type_of(&"yuyv".to_string()), None);
    assert_eq!(pixel_type_of(&"YUYV".to_string()), Some(PixelType::YUYV));
}

#[test]
fn score_stage_flags_motion_against_previous_frame() {
    let s = settings("YUYV", 32, 32, 4);
    let mut stage = ScoreStage::new(&s, PixelType::YUYV);
    assert_eq!(stage.raw_frame_len(), 2048);
    let dark = split_frame(32, 32, 0);
    let half = split_frame(32, 32, 16);
    // The first frame only sets the baseline.
    assert!(!stage.process(&dark));
    assert_eq!(stage.previous.as_ref().map(|p| p.len()), Some(36));
    // Two columns of four interior rows change: a score of 8.
    assert!(stage.process(&half));
    assert_eq!(stage.previous.as_ref().unwrap()[..6].to_vec(), vec![255, 255, 255, 127, 0, 0]);
    // The same frame again: the baseline moved, nothing changed.
    assert!(!stage.process(&half));
    assert!(stage.process(&dark));
}

#[test]
fn score_stage_needs_the_motion_count() {
    let mut s = settings("YUYV", 32, 32, 4);
    s.edge_thresh = 9;
    let mut stage = ScoreStage::new(&s, PixelType::YUYV);
    assert!(!stage.process(&split_frame(32, 32, 0)));
    assert!(!stage.process(&split_frame(32, 32, 16)));
}

#[test]
fn gray_frames_take_one_byte_per_pixel() {
    let s = settings("YUYV", 640, 480, 4);
    let stage = ScoreStage::new(&s, PixelType::Gray);
    assert_eq!(stage.raw_frame_len(), 640 * 480);
}

#[test]
fn capture_transitions() {
    let (s, a) = capture_step(CaptureState::Idle, CaptureEvent::Start);
    assert_eq!(s, CaptureState::Capturing);
    assert!(matches!(a, CaptureAction::OpenCamera));
    let (s, a) = capture_step(CaptureState::Capturing, CaptureEvent::Captured(Some(vec![1, 2])));
    assert_eq!(s, CaptureState::Capturing);
    assert!(matches!(a, CaptureAction::Forward(ref f) if *f == vec![1, 2]));
    let (s, a) = capture_step(CaptureState::Capturing, CaptureEvent::Captured(None));
    assert_eq!(s, CaptureState::Capturing);
    assert!(matches!(a, CaptureAction::CaptureAgain));
    let (s, a) = capture_step(CaptureState::Capturing, CaptureEvent::ReceiverGone);
    assert_eq!(s, CaptureState::Stopped);
    assert!(matches!(a, CaptureAction::Halt));
    let (s, a) = capture_step(CaptureState::Stopped, CaptureEvent::Captured(Some(vec![3])));
    assert_eq!(s, CaptureState::Stopped);
    assert!(matches!(a, CaptureAction::Halt));
}

#[test]
fn snapshot_path_joins_dir_and_stamp() {
    assert_eq!(snapshot_path("/var/shots", "20240102-030405-123456789"), "/var/shots/20240102-030405-123456789.jpg");
}
