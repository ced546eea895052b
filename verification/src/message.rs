//! Messages shipped to the UI event channel.
//!
//! A running message accumulates the numeric fields decoded from the
//! progress stream plus the raw captured lines; on each emission its
//! mutable fields are cleared while the task id and progress basis
//! persist.  Decimal telemetry values (frames-per-second, bitrate,
//! speed) are carried as their validated tokens, exactly as the stream
//! spelled them.

use vstd::prelude::*;

use crate::progress::ProgressType;
use crate::progress::ProgressTypeView;

verus! {

/// The in-flight progress report of one task.
pub struct TaskRunningMessage {
    pub id: String,
    pub progress_type: ProgressType,
    pub raw: Vec<String>,
    pub frame: Option<usize>,
    pub fps: Option<String>,
    pub bitrate: Option<String>,
    pub total_size: Option<usize>,
    pub output_time_ms: Option<usize>,
    pub dup_frames: Option<usize>,
    pub drop_frames: Option<usize>,
    pub speed: Option<String>,
}

/// Mathematical image of [`TaskRunningMessage`].
pub ghost struct RunningView {
    pub id: Seq<char>,
    pub progress_type: ProgressTypeView,
    pub raw: Seq<Seq<char>>,
    pub frame: Option<int>,
    pub fps: Option<Seq<char>>,
    pub bitrate: Option<Seq<char>>,
    pub total_size: Option<int>,
    pub output_time_ms: Option<int>,
    pub dup_frames: Option<int>,
    pub drop_frames: Option<int>,
    pub speed: Option<Seq<char>>,
}

impl View for TaskRunningMessage {
    type V = RunningView;

    open spec fn view(&self) -> RunningView {
        RunningView {
            id: self.id@,
            progress_type: self.progress_type@,
            raw: self.raw.deep_view(),
            frame: match self.frame {
                Some(v) => Some(v as int),
                None => None,
            },
            fps: match self.fps {
                Some(s) => Some(s@),
                None => None,
            },
            bitrate: match self.bitrate {
                Some(s) => Some(s@),
                None => None,
            },
            total_size: match self.total_size {
                Some(v) => Some(v as int),
                None => None,
            },
            output_time_ms: match self.output_time_ms {
                Some(v) => Some(v as int),
                None => None,
            },
            dup_frames: match self.dup_frames {
                Some(v) => Some(v as int),
                None => None,
            },
            drop_frames: match self.drop_frames {
                Some(v) => Some(v as int),
                None => None,
            },
            speed: match self.speed {
                Some(s) => Some(s@),
                None => None,
            },
        }
    }
}

/// The cleared image of a running message: every mutable field reset,
/// the id and progress basis kept.
pub open spec fn cleared(m: RunningView) -> RunningView {
    RunningView {
        id: m.id,
        progress_type: m.progress_type,
        raw: Seq::empty(),
        frame: None,
        fps: None,
        bitrate: None,
        total_size: None,
        output_time_ms: None,
        dup_frames: None,
        drop_frames: None,
        speed: None,
    }
}

impl TaskRunningMessage {
    /// A fresh message for `id` with no fields collected yet.
    pub fn new(id: String, progress_type: ProgressType) -> (r: TaskRunningMessage)
        ensures
            r@ == (cleared(
                RunningView {
                    id: id@,
                    progress_type: progress_type@,
                    raw: Seq::empty(),
                    frame: None,
                    fps: None,
                    bitrate: None,
                    total_size: None,
                    output_time_ms: None,
                    dup_frames: None,
                    drop_frames: None,
                    speed: None,
                },
            )),
    {
        let r = TaskRunningMessage {
            id,
            progress_type,
            raw: Vec::new(),
            frame: None,
            fps: None,
            bitrate: None,
            total_size: None,
            output_time_ms: None,
            dup_frames: None,
            drop_frames: None,
            speed: None,
        };
        proof {
            assert(r.raw.deep_view() =~= Seq::<Seq<char>>::empty());
        }
        r
    }

    /// Resets the mutable fields after an emission; the id and progress
    /// basis persist.
    pub fn clear(&mut self)
        ensures
            final(self)@ == cleared(old(self)@),
    {
        self.frame = None;
        self.fps = None;
        self.bitrate = None;
        self.total_size = None;
        self.output_time_ms = None;
        self.dup_frames = None;
        self.drop_frames = None;
        self.speed = None;
        self.raw.clear();
        proof {
            assert(self.raw.deep_view() =~= Seq::<Seq<char>>::empty());
        }
    }

    /// An owned copy, field for field.
    pub fn snapshot(&self) -> (r: TaskRunningMessage)
        ensures
            r@ == self@,
    {
        let mut raw: Vec<String> = Vec::new();
        let mut i: usize = 0;
        while i < self.raw.len()
            invariant
                i <= self.raw.len(),
                raw.deep_view() == self.raw.deep_view().take(i as int),
            decreases self.raw.len() - i,
        {
            let ghost before = raw.deep_view();
            let elem = self.raw[i].clone();
            proof {
                assert(elem@ == self.raw.deep_view()[i as int]);
            }
            raw.push(elem);
            proof {
                assert(raw.deep_view() =~= before.push(self.raw.deep_view()[i as int]));
                assert(raw.deep_view() =~= self.raw.deep_view().take(i as int + 1));
            }
            i = i + 1;
        }
        proof {
            assert(self.raw.deep_view().take(self.raw.len() as int) =~= self.raw.deep_view());
        }
        TaskRunningMessage {
            id: self.id.clone(),
            progress_type: match self.progress_type {
                ProgressType::ByDuration { duration } => ProgressType::ByDuration { duration },
                ProgressType::ByFileSize { size } => ProgressType::ByFileSize { size },
                ProgressType::Unspecified => ProgressType::Unspecified,
            },
            raw,
            frame: self.frame,
            fps: match &self.fps {
                Some(s) => Some(s.clone()),
                None => None,
            },
            bitrate: match &self.bitrate {
                Some(s) => Some(s.clone()),
                None => None,
            },
            total_size: self.total_size,
            output_time_ms: self.output_time_ms,
            dup_frames: self.dup_frames,
            drop_frames: self.drop_frames,
            speed: match &self.speed {
                Some(s) => Some(s.clone()),
                None => None,
            },
        }
    }
}

/// Mathematical image of [`TaskMessage`].
pub ghost enum MessageView {
    Running(RunningView),
    Finished { id: Seq<char> },
    Errored { id: Seq<char>, reason: Seq<char> },
}

/// A message informing the UI of a task's situation.
pub enum TaskMessage {
    Running(TaskRunningMessage),
    Finished { id: String },
    Errored { id: String, reason: String },
}

impl View for TaskMessage {
    type V = MessageView;

    open spec fn view(&self) -> MessageView {
        match self {
            TaskMessage::Running(m) => MessageView::Running(m@),
            TaskMessage::Finished { id } => MessageView::Finished { id: id@ },
            TaskMessage::Errored { id, reason } => MessageView::Errored {
                id: id@,
                reason: reason@,
            },
        }
    }
}

impl TaskMessage {
    /// A progress event carrying a copy of the running message.
    pub fn running(msg: &TaskRunningMessage) -> (r: TaskMessage)
        ensures
            r@ == MessageView::Running(msg@),
    {
        TaskMessage::Running(msg.snapshot())
    }

    /// The terminal event of a task that completed its work.
    pub fn finished(id: String) -> (r: TaskMessage)
        ensures
            r@ == (MessageView::Finished { id: id@ }),
    {
        TaskMessage::Finished { id }
    }

    /// The terminal event of a task that failed, with the reason.
    pub fn errored(id: String, reason: String) -> (r: TaskMessage)
        ensures
            r@ == (MessageView::Errored { id: id@, reason: reason@ }),
    {
        TaskMessage::Errored { id, reason }
    }
}

} // verus!
