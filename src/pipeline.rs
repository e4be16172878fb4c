use vstd::prelude::*;
use vstd::string::StringExecFns;

use crate::config::{settings_verdict, Settings, SettingsError};
use crate::blur::{blur_down, blurred};
use crate::detect::{compare, diff_seq, edge_count, interior};
use crate::pixels::{stride_of, PixelType, Pixels};

verus! {

/// Side of the luma frame that `blur_down` makes of a frame side of `n`
/// pixels.
pub open spec fn luma_side(n: int, ratio: int) -> int {
    interior(n / ratio)
}

/// Scores each captured frame against the one before it.
///
/// The previous luma frame is compared with the current one at the luma
/// frame's own size, `(width / ratio - 2)` by `(height / ratio - 2)`, so
/// that both buffers are exactly covered for every ratio.
pub struct ScoreStage {
    pub pixel_type: PixelType,
    pub width: u32,
    pub height: u32,
    pub ratio: u32,
    pub sobel_thresh: i16,
    pub edge_thresh: u32,
    pub previous: Option<Vec<u8>>,
}

impl ScoreStage {
    pub open spec fn wf(&self) -> bool {
        &&& self.ratio >= 1
        &&& self.width * self.height <= u32::MAX
        &&& self.previous matches Some(p) ==> p@.len() == self.luma_len()
    }

    /// Samples in a luma frame.
    pub open spec fn luma_len(&self) -> int {
        luma_side(self.width as int, self.ratio as int) * luma_side(self.height as int, self.ratio as int)
    }

    /// Bytes in a raw frame.
    pub open spec fn frame_len(&self) -> int {
        stride_of(self.pixel_type) * (self.width * self.height)
    }

    /// The luma frame made of a raw frame.
    pub open spec fn luma_of(&self, frame: Seq<u8>) -> Seq<u8> {
        blurred(
            frame,
            stride_of(self.pixel_type),
            self.width as int,
            self.height as int,
            self.ratio as int,
        )
    }

    /// Motion score of `current` against `previous`.
    pub open spec fn score(&self, previous: Seq<u8>, current: Seq<u8>) -> nat {
        edge_count(
            diff_seq(previous, current),
            luma_side(self.width as int, self.ratio as int),
            luma_side(self.height as int, self.ratio as int),
            self.sobel_thresh,
        )
    }

    /// Whether a frame whose luma frame is `current` shows motion.
    pub open spec fn shows_motion(&self, current: Seq<u8>) -> bool {
        match self.previous {
            None => false,
            Some(p) => self.score(p@, current) >= self.edge_thresh,
        }
    }

    /// A stage with no previous frame, for a configuration that
    /// `check_settings` accepted with the pixel layout it gave.
    pub fn new(settings: &Settings, pixel_type: PixelType) -> (s: ScoreStage)
        requires
            settings_verdict(*settings) == Ok::<PixelType, SettingsError>(pixel_type),
        ensures
            s.wf(),
            s.pixel_type == pixel_type,
            s.width == settings.camera.width,
            s.height == settings.camera.height,
            s.ratio == settings.downsample_ratio,
            s.sobel_thresh == settings.sobel_thresh,
            s.edge_thresh == settings.edge_thresh,
            s.previous.is_none(),
    {
        ScoreStage {
            pixel_type,
            width: settings.camera.width,
            height: settings.camera.height,
            ratio: settings.downsample_ratio,
            sobel_thresh: settings.sobel_thresh,
            edge_thresh: settings.edge_thresh,
            previous: None,
        }
    }

    /// Bytes that a raw frame of the configured size and layout holds.
    pub fn raw_frame_len(&self) -> (n: u64)
        requires
            self.wf(),
        ensures
            n == self.frame_len(),
    {
        let stride: u64 = match self.pixel_type {
            PixelType::YUYV => 2,
            PixelType::Gray => 1,
        };
        stride * (self.width as u64 * self.height as u64)
    }

    /// Downsamples a raw frame, scores it against the previous luma frame
    /// and keeps it as the new previous one. Returns whether the raw frame
    /// shows motion and should be persisted; the first frame never does.
    pub fn process(&mut self, frame: &[u8]) -> (motion: bool)
        requires
            old(self).wf(),
            frame@.len() == old(self).frame_len(),
        ensures
            final(self).wf(),
            final(self).pixel_type == old(self).pixel_type,
            final(self).width == old(self).width,
            final(self).height == old(self).height,
            final(self).ratio == old(self).ratio,
            final(self).sobel_thresh == old(self).sobel_thresh,
            final(self).edge_thresh == old(self).edge_thresh,
            final(self).previous matches Some(p) && p@ == old(self).luma_of(frame@),
            motion == old(self).shows_motion(old(self).luma_of(frame@)),
    {
        let pixels = Pixels::new(self.width as usize, frame, self.pixel_type);
        let current = blur_down(&pixels, self.width, self.height, self.ratio);
        let lw: u32 = if self.width / self.ratio >= 2 {
            self.width / self.ratio - 2
        } else {
            0
        };
        let lh: u32 = if self.height / self.ratio >= 2 {
            self.height / self.ratio - 2
        } else {
            0
        };
        proof {
            let (w, h, r) = (self.width as int, self.height as int, self.ratio as int);
            assert(w / r <= w && h / r <= h) by (nonlinear_arith)
                requires
                    r >= 1,
                    w >= 0,
                    h >= 0,
            ;
            assert(lw * lh <= w * h) by (nonlinear_arith)
                requires
                    0 <= lw <= w,
                    0 <= lh <= h,
            ;
            assert(current@.len() == lw * lh);
        }
        let motion = match &self.previous {
            None => false,
            Some(previous) => compare(previous, &current, lw, lh, self.sobel_thresh)
                >= self.edge_thresh,
        };
        self.previous = Some(current);
        motion
    }
}

/// A bounded first-in first-out queue that drops the newest item when it is
/// full, so that the producer never blocks.
pub struct PersistQueue<T> {
    items: Vec<T>,
    capacity: usize,
}

impl<T> View for PersistQueue<T> {
    type V = Seq<T>;

    closed spec fn view(&self) -> Seq<T> {
        self.items@
    }
}

impl<T> PersistQueue<T> {
    pub closed spec fn capacity(&self) -> nat {
        self.capacity as nat
    }

    pub open spec fn wf(&self) -> bool {
        self@.len() <= self.capacity()
    }

    pub fn new(capacity: usize) -> (q: PersistQueue<T>)
        ensures
            q.wf(),
            q@ == Seq::<T>::empty(),
            q.capacity() == capacity,
    {
        PersistQueue { items: Vec::new(), capacity }
    }

    pub fn len(&self) -> (n: usize)
        ensures
            n == self@.len(),
    {
        self.items.len()
    }

    /// Queues `item` if there is room; hands it back, dropped, if the queue
    /// is full.
    pub fn try_send(&mut self, item: T) -> (r: Result<(), T>)
        requires
            old(self).wf(),
        ensures
            final(self).wf(),
            final(self).capacity() == old(self).capacity(),
            old(self)@.len() < old(self).capacity() ==> r is Ok && final(self)@ == old(self)@.push(
                item,
            ),
            old(self)@.len() >= old(self).capacity() ==> r == Err::<(), T>(item) && final(self)@
                == old(self)@,
    {
        if self.items.len() < self.capacity {
            self.items.push(item);
            Ok(())
        } else {
            Err(item)
        }
    }

    /// Takes the oldest item, if any.
    pub fn recv(&mut self) -> (r: Option<T>)
        requires
            old(self).wf(),
        ensures
            final(self).wf(),
            final(self).capacity() == old(self).capacity(),
            old(self)@.len() == 0 ==> r is None && final(self)@ == old(self)@,
            old(self)@.len() > 0 ==> r == Some(old(self)@[0]) && final(self)@ == old(self)@.drop_first(),
    {
        if self.items.len() == 0 {
            None
        } else {
            let item = self.items.remove(0);
            assert(self.items@ =~= old(self)@.drop_first());
            Some(item)
        }
    }
}

/// Phases of the capture stage.
#[derive(Clone, Copy, Debug, PartialEq, Eq, Structural)]
pub enum CaptureState {
    Idle,
    Capturing,
    Stopped,
}

/// What the capture loop observed.
pub enum CaptureEvent {
    /// The stage was started.
    Start,
    /// A capture attempt returned a frame, or nothing on a transient failure.
    Captured(Option<Vec<u8>>),
    /// The scoring stage no longer receives frames.
    ReceiverGone,
}

/// What the capture loop does next.
pub enum CaptureAction {
    /// Open the camera with the configured format, then capture.
    OpenCamera,
    /// Hand the frame to the scoring stage unchanged, then capture again.
    Forward(Vec<u8>),
    /// Nothing came this cycle: capture again.
    CaptureAgain,
    /// Stop forwarding.
    Halt,
}

/// The capture stage's transition: a started stage opens the camera;
/// frames are forwarded as they come, failed captures are skipped; once the
/// receiver is gone the stage stops for good.
pub fn capture_step(state: CaptureState, event: CaptureEvent) -> (r: (CaptureState, CaptureAction))
    ensures
        (state == CaptureState::Stopped || event is ReceiverGone) ==> r.0 == CaptureState::Stopped
            && r.1 is Halt,
        state == CaptureState::Idle && !(event is ReceiverGone) ==> r.0 == CaptureState::Capturing
            && r.1 is OpenCamera,
        state == CaptureState::Capturing ==> match event {
            CaptureEvent::Captured(Some(f)) => r.0 == CaptureState::Capturing && r.1 == CaptureAction::Forward(f),
            CaptureEvent::Captured(None) => r.0 == CaptureState::Capturing && r.1 is CaptureAgain,
            CaptureEvent::Start => r.0 == CaptureState::Capturing && r.1 is CaptureAgain,
            CaptureEvent::ReceiverGone => true,
        },
{
    match (state, event) {
        (CaptureState::Stopped, _) | (_, CaptureEvent::ReceiverGone) => (
            CaptureState::Stopped,
            CaptureAction::Halt,
        ),
        (CaptureState::Idle, _) => (CaptureState::Capturing, CaptureAction::OpenCamera),
        (CaptureState::Capturing, CaptureEvent::Captured(Some(frame))) => (
            CaptureState::Capturing,
            CaptureAction::Forward(frame),
        ),
        (CaptureState::Capturing, _) => (CaptureState::Capturing, CaptureAction::CaptureAgain),
    }
}

/// Path of the snapshot taken at `stamp`: `<dir>/<stamp>.jpg`.
pub fn snapshot_path(dir: &str, stamp: &str) -> (path: String)
    ensures
        path@ == dir@ + "/"@ + stamp@ + ".jpg"@,
{
    let mut path = String::from_str(dir);
    path.append("/");
    path.append(stamp);
    path.append(".jpg");
    path
}

} // verus!
