//! The value types the pipeline stages exchange.
//!
//! Coordinates, scores and confidences are fixed-point integers scaled by
//! [`crate::fixed::UNIT`]; timestamps are milliseconds.

use vstd::prelude::*;

use crate::fixed::UNIT;
use crate::text::dec_digits;

verus! {

/// One captured image: RGBA bytes in row-major order, without stride
/// padding, together with its dimensions and capture timestamp.
#[derive(Clone, Debug)]
pub struct Frame {
    pub rgba: Vec<u8>,
    pub width: u32,
    pub height: u32,
    pub timestamp_ms: u64,
}

impl Frame {
    /// The buffer invariant every stage relies on: four bytes per pixel.
    pub open spec fn wf(self) -> bool {
        self.rgba@.len() == self.width * self.height * 4
    }
}

/// One palm candidate surviving non-max suppression, in original-frame
/// fixed-point pixel coordinates.
#[derive(Clone, Debug)]
pub struct PalmRegion {
    /// `[x1, y1, x2, y2]`, clamped to the frame bounds.
    pub bbox: [i64; 4],
    /// The seven palm keypoints.
    pub landmarks: Vec<(i64, i64)>,
    /// Detection score in `[0, UNIT]`.
    pub score: i64,
}

/// Which hand the landmarks belong to.
#[derive(Clone, Copy, Debug, PartialEq, Eq, Structural)]
pub enum Handedness {
    Left,
    Right,
    Unknown,
}

impl Handedness {
    pub open spec fn label_spec(self) -> Seq<char> {
        match self {
            Handedness::Left => "左手"@,
            Handedness::Right => "右手"@,
            Handedness::Unknown => "未知"@,
        }
    }

    pub fn label(&self) -> (res: &'static str)
        ensures
            res@ == self.label_spec(),
    {
        match self {
            Handedness::Left => "左手",
            Handedness::Right => "右手",
            Handedness::Unknown => "未知",
        }
    }
}

/// Flexion state of one finger.
#[derive(Clone, Copy, Debug, PartialEq, Eq, Structural)]
pub enum FingerState {
    Extended,
    HalfBent,
    Folded,
}

impl FingerState {
    pub open spec fn label_spec(self) -> Seq<char> {
        match self {
            FingerState::Extended => "伸直"@,
            FingerState::HalfBent => "半弯"@,
            FingerState::Folded => "弯曲"@,
        }
    }

    pub fn label(&self) -> (res: &'static str)
        ensures
            res@ == self.label_spec(),
    {
        match self {
            FingerState::Extended => "伸直",
            FingerState::HalfBent => "半弯",
            FingerState::Folded => "弯曲",
        }
    }
}

/// The closed set of learned gesture categories, plus `Unknown` for a
/// missing model, an inference failure or an out-of-range class index.
#[derive(Clone, Copy, Debug, PartialEq, Eq, Structural)]
pub enum GestureKind {
    Call,
    Dislike,
    Fist,
    Four,
    Grabbing,
    Grip,
    HandHeart,
    HandHeart2,
    Holy,
    Like,
    LittleFinger,
    MiddleFinger,
    Mute,
    NoGesture,
    OkSign,
    One,
    Palm,
    Peace,
    PeaceInverted,
    Point,
    Rock,
    Stop,
    StopInverted,
    TakePicture,
    Three,
    Three2,
    Three3,
    ThreeGun,
    ThumbIndex,
    ThumbIndex2,
    Timeout,
    TwoUp,
    TwoUpInverted,
    XSign,
    Unknown,
}

impl GestureKind {
    pub open spec fn display_name_spec(self) -> Seq<char> {
        match self {
            GestureKind::Call => "打电话"@,
            GestureKind::Dislike => "点踩"@,
            GestureKind::Fist => "握拳"@,
            GestureKind::Four => "四指"@,
            GestureKind::Grabbing => "抓取"@,
            GestureKind::Grip => "握持"@,
            GestureKind::HandHeart => "比心"@,
            GestureKind::HandHeart2 => "比心2"@,
            GestureKind::Holy => "祈祷"@,
            GestureKind::Like => "点赞"@,
            GestureKind::LittleFinger => "小指"@,
            GestureKind::MiddleFinger => "中指"@,
            GestureKind::Mute => "静音"@,
            GestureKind::NoGesture => "无手势"@,
            GestureKind::OkSign => "OK"@,
            GestureKind::One => "一"@,
            GestureKind::Palm => "手掌"@,
            GestureKind::Peace => "和平/剪刀手"@,
            GestureKind::PeaceInverted => "倒V"@,
            GestureKind::Point => "指向"@,
            GestureKind::Rock => "摇滚"@,
            GestureKind::Stop => "停止"@,
            GestureKind::StopInverted => "倒停止"@,
            GestureKind::TakePicture => "拍照"@,
            GestureKind::Three => "三指"@,
            GestureKind::Three2 => "三指2"@,
            GestureKind::Three3 => "三指3"@,
            GestureKind::ThreeGun => "三指枪"@,
            GestureKind::ThumbIndex => "拇指食指"@,
            GestureKind::ThumbIndex2 => "拇指食指2"@,
            GestureKind::Timeout => "暂停"@,
            GestureKind::TwoUp => "两指向上"@,
            GestureKind::TwoUpInverted => "倒两指"@,
            GestureKind::XSign => "X标志"@,
            GestureKind::Unknown => "未知手势"@,
        }
    }

    pub fn display_name(&self) -> (res: &'static str)
        ensures
            res@ == self.display_name_spec(),
    {
        match self {
            GestureKind::Call => "打电话",
            GestureKind::Dislike => "点踩",
            GestureKind::Fist => "握拳",
            GestureKind::Four => "四指",
            GestureKind::Grabbing => "抓取",
            GestureKind::Grip => "握持",
            GestureKind::HandHeart => "比心",
            GestureKind::HandHeart2 => "比心2",
            GestureKind::Holy => "祈祷",
            GestureKind::Like => "点赞",
            GestureKind::LittleFinger => "小指",
            GestureKind::MiddleFinger => "中指",
            GestureKind::Mute => "静音",
            GestureKind::NoGesture => "无手势",
            GestureKind::OkSign => "OK",
            GestureKind::One => "一",
            GestureKind::Palm => "手掌",
            GestureKind::Peace => "和平/剪刀手",
            GestureKind::PeaceInverted => "倒V",
            GestureKind::Point => "指向",
            GestureKind::Rock => "摇滚",
            GestureKind::Stop => "停止",
            GestureKind::StopInverted => "倒停止",
            GestureKind::TakePicture => "拍照",
            GestureKind::Three => "三指",
            GestureKind::Three2 => "三指2",
            GestureKind::Three3 => "三指3",
            GestureKind::ThreeGun => "三指枪",
            GestureKind::ThumbIndex => "拇指食指",
            GestureKind::ThumbIndex2 => "拇指食指2",
            GestureKind::Timeout => "暂停",
            GestureKind::TwoUp => "两指向上",
            GestureKind::TwoUpInverted => "倒两指",
            GestureKind::XSign => "X标志",
            GestureKind::Unknown => "未知手势",
        }
    }

    pub open spec fn emoji_spec(self) -> Seq<char> {
        match self {
            GestureKind::Call => "🤙 "@,
            GestureKind::Dislike => "👎 "@,
            GestureKind::Fist => "✊ "@,
            GestureKind::Four => "🖖 "@,
            GestureKind::Grabbing => "🤜 "@,
            GestureKind::Grip => "✊ "@,
            GestureKind::HandHeart => "🫰 "@,
            GestureKind::HandHeart2 => "🫶 "@,
            GestureKind::Holy => "🙏 "@,
            GestureKind::Like => "👍 "@,
            GestureKind::LittleFinger => "🤙 "@,
            GestureKind::MiddleFinger => "🖕 "@,
            GestureKind::Mute => "🤐 "@,
            GestureKind::NoGesture => "⋯ "@,
            GestureKind::OkSign => "👌 "@,
            GestureKind::One => "☝️ "@,
            GestureKind::Palm => "🖐 "@,
            GestureKind::Peace => "✌️ "@,
            GestureKind::PeaceInverted => "🤞 "@,
            GestureKind::Point => "👉 "@,
            GestureKind::Rock => "🤘 "@,
            GestureKind::Stop => "✋ "@,
            GestureKind::StopInverted => "🤚 "@,
            GestureKind::TakePicture => "📸 "@,
            GestureKind::Three => "🤟 "@,
            GestureKind::Three2 => "👌 "@,
            GestureKind::Three3 => "🤏 "@,
            GestureKind::ThreeGun => "👈 "@,
            GestureKind::ThumbIndex => "🤏 "@,
            GestureKind::ThumbIndex2 => "👌 "@,
            GestureKind::Timeout => "⏸️ "@,
            GestureKind::TwoUp => "✌️ "@,
            GestureKind::TwoUpInverted => "🤞 "@,
            GestureKind::XSign => "❌ "@,
            GestureKind::Unknown => "⋯ "@,
        }
    }

    pub fn emoji(&self) -> (res: &'static str)
        ensures
            res@ == self.emoji_spec(),
    {
        match self {
            GestureKind::Call => "🤙 ",
            GestureKind::Dislike => "👎 ",
            GestureKind::Fist => "✊ ",
            GestureKind::Four => "🖖 ",
            GestureKind::Grabbing => "🤜 ",
            GestureKind::Grip => "✊ ",
            GestureKind::HandHeart => "🫰 ",
            GestureKind::HandHeart2 => "🫶 ",
            GestureKind::Holy => "🙏 ",
            GestureKind::Like => "👍 ",
            GestureKind::LittleFinger => "🤙 ",
            GestureKind::MiddleFinger => "🖕 ",
            GestureKind::Mute => "🤐 ",
            GestureKind::NoGesture => "⋯ ",
            GestureKind::OkSign => "👌 ",
            GestureKind::One => "☝️ ",
            GestureKind::Palm => "🖐 ",
            GestureKind::Peace => "✌️ ",
            GestureKind::PeaceInverted => "🤞 ",
            GestureKind::Point => "👉 ",
            GestureKind::Rock => "🤘 ",
            GestureKind::Stop => "✋ ",
            GestureKind::StopInverted => "🤚 ",
            GestureKind::TakePicture => "📸 ",
            GestureKind::Three => "🤟 ",
            GestureKind::Three2 => "👌 ",
            GestureKind::Three3 => "🤏 ",
            GestureKind::ThreeGun => "👈 ",
            GestureKind::ThumbIndex => "🤏 ",
            GestureKind::ThumbIndex2 => "👌 ",
            GestureKind::Timeout => "⏸️ ",
            GestureKind::TwoUp => "✌️ ",
            GestureKind::TwoUpInverted => "🤞 ",
            GestureKind::XSign => "❌ ",
            GestureKind::Unknown => "⋯ ",
        }
    }
}

/// Temporal motion pattern of the wrist over the tracker window.
#[derive(Clone, Copy, Debug, PartialEq, Eq, Structural)]
pub enum GestureMotion {
    Steady,
    Fanning,
    VerticalWave,
    Moving,
}

impl GestureMotion {
    pub open spec fn label_spec(self) -> Seq<char> {
        match self {
            GestureMotion::Steady => "保持"@,
            GestureMotion::Fanning => "左右扇动"@,
            GestureMotion::VerticalWave => "上下挥动"@,
            GestureMotion::Moving => "移动中"@,
        }
    }

    pub fn label(&self) -> (res: &'static str)
        ensures
            res@ == self.label_spec(),
    {
        match self {
            GestureMotion::Steady => "保持",
            GestureMotion::Fanning => "左右扇动",
            GestureMotion::VerticalWave => "上下挥动",
            GestureMotion::Moving => "移动中",
        }
    }
}

/// The per-frame classification result, rebuilt fresh on every call.
#[derive(Clone, Debug)]
pub struct GestureDetail {
    pub primary: GestureKind,
    /// Reserved: no secondary candidate is currently computed.
    pub secondary: Option<GestureKind>,
    pub handedness: Handedness,
    /// Thumb, index, middle, ring, pinky.
    pub finger_states: [FingerState; 5],
    pub motion: GestureMotion,
}

/// What the recognition stage emits for one frame.
#[derive(Clone, Debug)]
pub struct GestureResult {
    pub label: String,
    /// Clamped to `[0, UNIT]`.
    pub confidence: i64,
    pub timestamp_ms: u64,
    /// The 21 landmarks in original-frame coordinates; `None` whenever
    /// the confidence is below the detection floor.
    pub landmarks: Option<Vec<(i64, i64)>>,
    pub detail: Option<GestureDetail>,
    pub palm_regions: Vec<PalmRegion>,
}

/// A frame paired with its recognition result, for presentation.
#[derive(Clone, Debug)]
pub struct RecognizedFrame {
    pub frame: Frame,
    pub result: GestureResult,
}

impl GestureResult {
    /// The confidence as a whole percentage, rounded to nearest.
    pub open spec fn percent_spec(self) -> int {
        (self.confidence * 100 + UNIT / 2) / (UNIT as int)
    }

    pub open spec fn display_text_spec(self) -> Seq<char> {
        match self.detail {
            Some(detail) => detail.primary.emoji_spec() + detail.primary.display_name_spec()
                + " ("@ + dec_digits(self.percent_spec() as nat) + "%)"@,
            None => self.label@ + " ("@ + dec_digits(self.percent_spec() as nat) + "%)"@,
        }
    }

    /// A one-line human-readable summary of the result.
    pub fn display_text(&self) -> (res: String)
        requires
            0 <= self.confidence <= UNIT,
        ensures
            res@ == self.display_text_spec(),
    {
        let percent = ((self.confidence * 100 + UNIT / 2) / UNIT) as u64;
        let tail = crate::text::u64_to_string(percent).concat("%)");
        match &self.detail {
            Some(detail) => {
                let mut s = String::from_str(detail.primary.emoji());
                s.append(detail.primary.display_name());
                s.append(" (");
                s.append(tail.as_str());
                s
            },
            None => {
                let mut s = self.label.clone();
                s.append(" (");
                s.append(tail.as_str());
                s
            },
        }
    }
}

} // verus!
