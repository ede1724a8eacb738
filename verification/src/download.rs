//! Model provisioning bookkeeping: which model files the pipeline needs,
//! the event stream a downloader reports, the state machine a UI folds
//! those events into, and the textual progress bar.
//!
//! The download itself (network, filesystem) is an external collaborator;
//! only its decisions live here.

use vstd::prelude::*;

use crate::text::{dec_digits, digit_char, repeat_str, seq_repeat, u64_to_string};

verus! {

/// Which model file an event refers to.
#[derive(Clone, Copy, Debug, PartialEq, Eq, Structural)]
pub enum ModelKind {
    HandposeEstimator,
    PalmDetector,
}

/// Where the handpose estimation model is kept.
pub fn default_handpose_estimator_model_path() -> (res: String)
    ensures
        res@ == "models/handpose_estimation_mediapipe_2023feb.onnx"@,
{
    String::from_str("models/handpose_estimation_mediapipe_2023feb.onnx")
}

/// Where the palm detection model is kept.
pub fn default_palm_detector_model_path() -> (res: String)
    ensures
        res@ == "models/palm_detection_mediapipe_2023feb.onnx"@,
{
    String::from_str("models/palm_detection_mediapipe_2023feb.onnx")
}

/// What a model download reports as it progresses.
#[derive(Clone, Copy, Debug, PartialEq, Eq, Structural)]
pub enum ModelDownloadEvent {
    AlreadyPresent { model: ModelKind },
    Started { model: ModelKind, total: Option<u64> },
    Progress { model: ModelKind, downloaded: u64, total: Option<u64> },
    Finished { model: ModelKind },
}

/// The display name of a model.
pub open spec fn model_label_spec(model: ModelKind) -> Seq<char> {
    match model {
        ModelKind::HandposeEstimator => "Handpose estimator"@,
        ModelKind::PalmDetector => "Palm detector"@,
    }
}

pub fn model_label(model: ModelKind) -> (res: &'static str)
    ensures
        res@ == model_label_spec(model),
{
    match model {
        ModelKind::HandposeEstimator => "Handpose estimator",
        ModelKind::PalmDetector => "Palm detector",
    }
}

/// The download screen's state, folded from the event stream.
#[derive(Debug)]
pub struct DownloadState {
    pub downloaded: u64,
    pub total: Option<u64>,
    pub message: String,
    pub error: Option<String>,
    pub finished: bool,
    pub handpose_ready: bool,
    pub palm_ready: bool,
    pub current_model: Option<ModelKind>,
}

impl DownloadState {
    pub fn new() -> (res: DownloadState)
        ensures
            res.downloaded == 0,
            res.total is None,
            res.message@ == "Preparing model download..."@,
            res.error is None,
            !res.finished,
            !res.handpose_ready,
            !res.palm_ready,
            res.current_model is None,
    {
        DownloadState {
            downloaded: 0,
            total: None,
            message: String::from_str("Preparing model download..."),
            error: None,
            finished: false,
            handpose_ready: false,
            palm_ready: false,
            current_model: None,
        }
    }

    /// Mark one model as ready.
    pub fn set_ready(&mut self, model: ModelKind)
        ensures
            final(self).handpose_ready == (old(self).handpose_ready || model
                == ModelKind::HandposeEstimator),
            final(self).palm_ready == (old(self).palm_ready || model == ModelKind::PalmDetector),
            final(self).downloaded == old(self).downloaded,
            final(self).total == old(self).total,
            final(self).message == old(self).message,
            final(self).error == old(self).error,
            final(self).finished == old(self).finished,
            final(self).current_model == old(self).current_model,
    {
        match model {
            ModelKind::HandposeEstimator => {
                self.handpose_ready = true;
            },
            ModelKind::PalmDetector => {
                self.palm_ready = true;
            },
        }
    }

    /// Fold one download event into the state: progress counters follow
    /// the event, readiness latches per model, and the whole download is
    /// finished once both models are ready.
    pub fn update_from_event(&mut self, event: ModelDownloadEvent)
        ensures
            final(self).error == old(self).error,
            final(self).finished == (final(self).handpose_ready && final(self).palm_ready),
            (match event {
                ModelDownloadEvent::AlreadyPresent { model } => {
                    &&& final(self).handpose_ready == (old(self).handpose_ready || model
                        == ModelKind::HandposeEstimator)
                    &&& final(self).palm_ready == (old(self).palm_ready || model
                        == ModelKind::PalmDetector)
                    &&& final(self).downloaded == 0
                    &&& final(self).total is None
                    &&& final(self).current_model == old(self).current_model
                    &&& final(self).message@ == model_label_spec(model)
                        + " model already present, continuing..."@
                },
                ModelDownloadEvent::Started { model, total } => {
                    &&& final(self).handpose_ready == old(self).handpose_ready
                    &&& final(self).palm_ready == old(self).palm_ready
                    &&& final(self).downloaded == 0
                    &&& final(self).total == total
                    &&& final(self).current_model == Some(model)
                    &&& final(self).message@ == "Downloading "@ + model_label_spec(model)
                        + " model..."@
                },
                ModelDownloadEvent::Progress { model, downloaded, total } => {
                    &&& final(self).handpose_ready == old(self).handpose_ready
                    &&& final(self).palm_ready == old(self).palm_ready
                    &&& final(self).downloaded == downloaded
                    &&& final(self).total == total
                    &&& final(self).current_model == Some(model)
                    &&& final(self).message@ == "Downloading "@ + model_label_spec(model)
                        + " model..."@
                },
                ModelDownloadEvent::Finished { model } => {
                    &&& final(self).handpose_ready == (old(self).handpose_ready || model
                        == ModelKind::HandposeEstimator)
                    &&& final(self).palm_ready == (old(self).palm_ready || model
                        == ModelKind::PalmDetector)
                    &&& final(self).downloaded == old(self).downloaded
                    &&& final(self).total == old(self).total
                    &&& final(self).current_model == old(self).current_model
                    &&& final(self).message@ == model_label_spec(model) + " model ready"@
                },
            }),
    {
        match event {
            ModelDownloadEvent::AlreadyPresent { model } => {
                self.message = String::from_str(model_label(model)).concat(
                    " model already present, continuing...",
                );
                self.set_ready(model);
                self.downloaded = 0;
                self.total = None;
            },
            ModelDownloadEvent::Started { model, total } => {
                self.current_model = Some(model);
                self.downloaded = 0;
                self.total = total;
                self.message = String::from_str("Downloading ").concat(model_label(model)).concat(
                    " model...",
                );
            },
            ModelDownloadEvent::Progress { model, downloaded, total } => {
                self.current_model = Some(model);
                self.downloaded = downloaded;
                self.total = total;
                self.message = String::from_str("Downloading ").concat(model_label(model)).concat(
                    " model...",
                );
            },
            ModelDownloadEvent::Finished { model } => {
                self.set_ready(model);
                self.message = String::from_str(model_label(model)).concat(" model ready");
            },
        }
        self.finished = self.handpose_ready && self.palm_ready;
    }
}

/// Width of the textual progress bar.
pub const BAR_LEN: u64 = 30;

/// The download progress in tenths of a percent, rounded to nearest and
/// clamped to `[0, 1000]`.
pub open spec fn percent_tenths_spec(downloaded: int, total: int) -> int
    recommends
        total >= 1,
{
    if downloaded >= total {
        1000
    } else {
        (downloaded * 2000 + total) / (2 * total)
    }
}

/// How many bar cells the progress fills, rounded to nearest.
pub open spec fn filled_cells_spec(downloaded: int, total: int) -> int
    recommends
        total >= 1,
{
    if downloaded >= total {
        30
    } else {
        (downloaded * 60 + total) / (2 * total)
    }
}

/// The percentage text of `{t}` tenths, right-aligned to five columns:
/// the whole percent, a dot, and one decimal digit.
pub open spec fn percent_text_spec(t: int) -> Seq<char>
    recommends
        0 <= t <= 1000,
{
    let body = dec_digits((t / 10) as nat) + seq!['.'] + seq![digit_char(t % 10)];
    seq_repeat(" "@, (5 - body.len()) as nat) + body
}

/// The progress-bar line for a known total: the filled and empty cells in
/// brackets, then the right-aligned percentage.
pub open spec fn known_bar_spec(downloaded: int, total: int) -> Seq<char>
    recommends
        total >= 1,
{
    let filled = filled_cells_spec(downloaded, total);
    "["@ + seq_repeat("="@, filled as nat) + seq_repeat(" "@, (30 - filled) as nat) + "] "@
        + percent_text_spec(percent_tenths_spec(downloaded, total)) + "%"@
}

/// The spinner line for an unknown total.
pub open spec fn unknown_bar_spec(downloaded: int) -> Seq<char> {
    let width = (downloaded / 64) % 30 + 1;
    "["@ + ">"@ + seq_repeat("-"@, (width - 1) as nat) + "] unknown size"@
}

/// Render the textual progress bar: a 30-cell bar with the percentage for
/// a known positive total, a walking spinner otherwise.
pub fn progress_bar_string(downloaded: u64, total: Option<u64>) -> (res: String)
    ensures
        (match total {
            Some(t) => t > 0 ==> res@ == known_bar_spec(downloaded as int, t as int),
            None => res@ == unknown_bar_spec(downloaded as int),
        }),
        (match total {
            Some(t) => t == 0 ==> res@ == unknown_bar_spec(downloaded as int),
            None => true,
        }),
{
    let known: bool = match total {
        Some(t) => t > 0,
        None => false,
    };
    if known {
        let t: u64 = match total {
            Some(t) => t,
            None => 1,
        };
        let tenths: u64 = if downloaded >= t {
            1000
        } else {
            proof {
                assert(downloaded * 2000 + t <= 0xFFFF_FFFF_FFFF_FFFF * 2000
                    + 0xFFFF_FFFF_FFFF_FFFF) by (nonlinear_arith)
                    requires
                        0 <= downloaded <= 0xFFFF_FFFF_FFFF_FFFF,
                        0 <= t <= 0xFFFF_FFFF_FFFF_FFFF,
                {};
                assert((downloaded as int * 2000 + t) / (2 * t as int) <= 1000)
                    by (nonlinear_arith)
                    requires
                        0 <= downloaded < t,
                {};
            }
            ((downloaded as u128 * 2000 + t as u128) / (2 * t as u128)) as u64
        };
        let filled: u64 = if downloaded >= t {
            30
        } else {
            proof {
                assert(downloaded * 60 + t <= 0xFFFF_FFFF_FFFF_FFFF * 60 + 0xFFFF_FFFF_FFFF_FFFF)
                    by (nonlinear_arith)
                    requires
                        0 <= downloaded <= 0xFFFF_FFFF_FFFF_FFFF,
                        0 <= t <= 0xFFFF_FFFF_FFFF_FFFF,
                {};
                assert((downloaded as int * 60 + t) / (2 * t as int) <= 30) by (nonlinear_arith)
                    requires
                        0 <= downloaded < t,
                {};
                assert((downloaded as int * 60 + t) / (2 * t as int) >= 0) by (nonlinear_arith)
                    requires
                        0 <= downloaded,
                        t >= 1,
                {};
            }
            ((downloaded as u128 * 60 + t as u128) / (2 * t as u128)) as u64
        };
        let whole: u64 = tenths / 10;
        let tenth: u64 = tenths % 10;
        let mut body = u64_to_string(whole);
        body.append(".");
        body.append(crate::text::digit_str(tenth));
        proof {
            reveal_strlit(".");
            assert(body@ == dec_digits((tenths / 10) as nat) + seq!['.'] + seq![
                digit_char(tenths as int % 10),
            ]);
            lemma_dec_digits_len((tenths / 10) as nat);
        }
        let pad: usize = if tenths >= 1000 {
            0
        } else if tenths >= 100 {
            1
        } else {
            2
        };
        proof {
            assert(body@.len() + pad == 5);
        }
        let mut s = String::from_str("[");
        s.append(repeat_str("=", filled as usize).as_str());
        s.append(repeat_str(" ", (30 - filled) as usize).as_str());
        s.append("] ");
        s.append(repeat_str(" ", pad).as_str());
        s.append(body.as_str());
        s.append("%");
        proof {
            reveal_strlit("[");
            reveal_strlit("] ");
            reveal_strlit("%");
        }
        s
    } else {
        let width: u64 = (downloaded / 64) % 30 + 1;
        let mut s = String::from_str("[");
        s.append(">");
        s.append(repeat_str("-", (width - 1) as usize).as_str());
        s.append("] unknown size");
        proof {
            reveal_strlit("[");
            reveal_strlit(">");
            reveal_strlit("] unknown size");
        }
        s
    }
}

/// The decimal digits of a value up to 100 fill one column per decade.
proof fn lemma_dec_digits_len(n: nat)
    requires
        n <= 100,
    ensures
        n < 10 ==> dec_digits(n).len() == 1,
        10 <= n < 100 ==> dec_digits(n).len() == 2,
        n == 100 ==> dec_digits(n).len() == 3,
    decreases n,
{
    if n >= 10 {
        lemma_dec_digits_len(n / 10);
    }
}

} // verus!
