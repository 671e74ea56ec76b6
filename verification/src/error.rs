//! What can go wrong, and how it is told to the user.

use vstd::prelude::*;

use crate::text::{decimal, decimal_text};

verus! {

/// Everything that can go wrong. Paths and messages are kept as text.
#[derive(Debug, PartialEq, Eq)]
pub enum CoreError {
    /// A program is not installed: ffmpeg, ffprobe or needle.
    ToolNotFound { tool: &'static str },
    /// A program ran and reported a failure.
    CommandFailed {
        cmd: String,
        /// The exit code in words: a program that was killed has none.
        code: String,
        /// The last lines that the program wrote.
        stderr: String,
    },
    /// The output file is there already and may not be replaced.
    OutputExists(String),
    /// What a program wrote could not be read.
    ParseFailed { what: &'static str, detail: String },
    /// The length of the video could not be read.
    DurationUnknown(String),
    /// Detection works on the sound, and there is none.
    NoAudioStream(String),
    /// Episodes are compared with each other, so one alone is not enough.
    NotEnoughEpisodes(usize),
    /// Neither an opening nor an ending was found in any episode.
    NoDetectionAtAll,
    /// The user stopped the work.
    Cancelled,
    /// The output would replace the input.
    OutputEqualsInput(String),
    /// The opening and the ending cover the whole video.
    NothingToKeep(String),
    /// The system reported an error.
    Io(String),
    /// A text is no valid JSON, or holds something else than expected.
    Json(String),
}

/// What an error says, with its texts as sequences of characters.
pub enum Fault {
    ToolNotFound { tool: Seq<char> },
    CommandFailed { cmd: Seq<char>, code: Seq<char>, stderr: Seq<char> },
    OutputExists(Seq<char>),
    ParseFailed { what: Seq<char>, detail: Seq<char> },
    DurationUnknown(Seq<char>),
    NoAudioStream(Seq<char>),
    NotEnoughEpisodes(nat),
    NoDetectionAtAll,
    Cancelled,
    OutputEqualsInput(Seq<char>),
    NothingToKeep(Seq<char>),
    Io(Seq<char>),
    Json(Seq<char>),
}

impl View for CoreError {
    type V = Fault;

    open spec fn view(&self) -> Fault {
        match *self {
            CoreError::ToolNotFound { tool } => Fault::ToolNotFound { tool: tool@ },
            CoreError::CommandFailed { cmd, code, stderr } => Fault::CommandFailed {
                cmd: cmd@,
                code: code@,
                stderr: stderr@,
            },
            CoreError::OutputExists(p) => Fault::OutputExists(p@),
            CoreError::ParseFailed { what, detail } => Fault::ParseFailed {
                what: what@,
                detail: detail@,
            },
            CoreError::DurationUnknown(p) => Fault::DurationUnknown(p@),
            CoreError::NoAudioStream(p) => Fault::NoAudioStream(p@),
            CoreError::NotEnoughEpisodes(n) => Fault::NotEnoughEpisodes(n as nat),
            CoreError::NoDetectionAtAll => Fault::NoDetectionAtAll,
            CoreError::Cancelled => Fault::Cancelled,
            CoreError::OutputEqualsInput(p) => Fault::OutputEqualsInput(p@),
            CoreError::NothingToKeep(p) => Fault::NothingToKeep(p@),
            CoreError::Io(e) => Fault::Io(e@),
            CoreError::Json(e) => Fault::Json(e@),
        }
    }
}

impl Clone for CoreError {
    fn clone(&self) -> (r: Self)
        ensures
            r@ == self@,
    {
        match self {
            CoreError::ToolNotFound { tool } => CoreError::ToolNotFound { tool: *tool },
            CoreError::CommandFailed { cmd, code, stderr } => CoreError::CommandFailed {
                cmd: cmd.clone(),
                code: code.clone(),
                stderr: stderr.clone(),
            },
            CoreError::OutputExists(p) => CoreError::OutputExists(p.clone()),
            CoreError::ParseFailed { what, detail } => CoreError::ParseFailed {
                what: *what,
                detail: detail.clone(),
            },
            CoreError::DurationUnknown(p) => CoreError::DurationUnknown(p.clone()),
            CoreError::NoAudioStream(p) => CoreError::NoAudioStream(p.clone()),
            CoreError::NotEnoughEpisodes(n) => CoreError::NotEnoughEpisodes(*n),
            CoreError::NoDetectionAtAll => CoreError::NoDetectionAtAll,
            CoreError::Cancelled => CoreError::Cancelled,
            CoreError::OutputEqualsInput(p) => CoreError::OutputEqualsInput(p.clone()),
            CoreError::NothingToKeep(p) => CoreError::NothingToKeep(p.clone()),
            CoreError::Io(e) => CoreError::Io(e.clone()),
            CoreError::Json(e) => CoreError::Json(e.clone()),
        }
    }
}

impl Fault {
    /// The error in one sentence, for the user.
    pub open spec fn text(self) -> Seq<char> {
        match self {
            Fault::ToolNotFound { tool } => "未找到 "@ + tool
                + "，请先安装它并确保它在 PATH 中，或在本工具里手动指定其所在目录"@,
            Fault::CommandFailed { cmd, code, stderr } => cmd + " 执行失败（"@ + code + "）"@,
            Fault::OutputExists(p) => "输出文件已存在："@ + p
                + "（勾选「覆盖已存在的输出文件」可以覆盖它）"@,
            Fault::ParseFailed { what, detail } => "解析 "@ + what + " 的输出失败："@ + detail,
            Fault::DurationUnknown(p) => "无法从视频中读出时长："@ + p,
            Fault::NoAudioStream(p) => "文件不含音轨，needle 无法分析："@ + p,
            Fault::NotEnoughEpisodes(n) => "只找到 "@ + decimal(n)
                + " 个视频文件；跨集比对至少需要 2 集才能工作"@,
            Fault::NoDetectionAtAll =>
            "检测完成，但没有任何剧集找到公共片头或片尾（这些剧集之间可能本来就没有相同片头）"@,
            Fault::Cancelled => "任务已取消"@,
            Fault::OutputEqualsInput(p) => "输出路径与输入相同，拒绝执行以免覆盖源文件："@ + p,
            Fault::NothingToKeep(p) => "片头片尾覆盖了整段视频，没有可保留的内容："@ + p,
            Fault::Io(e) => "IO 错误："@ + e,
            Fault::Json(e) => "JSON 解析错误："@ + e,
        }
    }
}

impl CoreError {
    /// The error in one sentence, for the user.
    pub fn message(&self) -> (r: String)
        ensures
            r@ == self@.text(),
    {
        match self {
            CoreError::ToolNotFound { tool } => "未找到 ".to_string().concat(tool).concat(
                "，请先安装它并确保它在 PATH 中，或在本工具里手动指定其所在目录",
            ),
            CoreError::CommandFailed { cmd, code, stderr: _ } => cmd.clone().concat(
                " 执行失败（",
            ).concat(code.as_str()).concat("）"),
            CoreError::OutputExists(p) => "输出文件已存在：".to_string().concat(p.as_str()).concat(
                "（勾选「覆盖已存在的输出文件」可以覆盖它）",
            ),
            CoreError::ParseFailed { what, detail } => "解析 ".to_string().concat(what).concat(
                " 的输出失败：",
            ).concat(detail.as_str()),
            CoreError::DurationUnknown(p) => "无法从视频中读出时长：".to_string().concat(p.as_str()),
            CoreError::NoAudioStream(p) => "文件不含音轨，needle 无法分析：".to_string().concat(
                p.as_str(),
            ),
            CoreError::NotEnoughEpisodes(n) => "只找到 ".to_string().concat(
                decimal_text(*n as u128).as_str(),
            ).concat(" 个视频文件；跨集比对至少需要 2 集才能工作"),
            CoreError::NoDetectionAtAll =>
            "检测完成，但没有任何剧集找到公共片头或片尾（这些剧集之间可能本来就没有相同片头）".to_string(),
            CoreError::Cancelled => "任务已取消".to_string(),
            CoreError::OutputEqualsInput(p) => "输出路径与输入相同，拒绝执行以免覆盖源文件：".to_string().concat(
            p.as_str()),
            CoreError::NothingToKeep(p) => "片头片尾覆盖了整段视频，没有可保留的内容：".to_string().concat(
                p.as_str(),
            ),
            CoreError::Io(e) => "IO 错误：".to_string().concat(e.as_str()),
            CoreError::Json(e) => "JSON 解析错误：".to_string().concat(e.as_str()),
        }
    }
}

/// The result of something that can go wrong, with the error by its view.
pub open spec fn outcome<T>(r: Result<T, CoreError>) -> Result<T, Fault> {
    match r {
        Ok(v) => Ok(v),
        Err(e) => Err(e@),
    }
}

} // verus!
