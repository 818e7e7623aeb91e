//! Looking for a newer release, and installing it.

use crate::config::profile::text_copy;
use crate::text::{blank, chars_of, is_blank, optional};
use vstd::prelude::*;

verus! {

/// A release of the program.
#[derive(Debug, PartialEq, Eq)]
pub struct Release {
    pub version: String,
    pub notes: String,
    /// The page of the release.
    pub url: String,
    /// The address of the archive for this platform, where there is one.
    pub asset: Option<String>,
    /// The name of that archive.
    pub asset_name: Option<String>,
}

/// How far looking for a release has come.
#[derive(Debug, PartialEq, Eq)]
pub enum Status {
    Checking,
    UpToDate { current: String },
    Available { release: Release },
    Downloading,
    /// It is installed, and the program starts again.
    Ready,
    Failed { error: String },
}

/// How far looking for a release has come, as a value.
#[verifier::ext_equal]
pub enum StatusModel {
    Checking,
    UpToDate { current: Seq<char> },
    Available { release: ReleaseModel },
    Downloading,
    Ready,
    Failed { error: Seq<char> },
}

/// A release as a value.
#[verifier::ext_equal]
pub struct ReleaseModel {
    pub version: Seq<char>,
    pub notes: Seq<char>,
    pub url: Seq<char>,
    pub asset: Option<Seq<char>>,
    pub asset_name: Option<Seq<char>>,
}

impl View for Release {
    type V = ReleaseModel;

    open spec fn view(&self) -> ReleaseModel {
        ReleaseModel {
            version: self.version@,
            notes: self.notes@,
            url: self.url@,
            asset: optional(self.asset),
            asset_name: optional(self.asset_name),
        }
    }
}

impl View for Status {
    type V = StatusModel;

    open spec fn view(&self) -> StatusModel {
        match self {
            Status::Checking => StatusModel::Checking,
            Status::UpToDate { current } => StatusModel::UpToDate { current: current@ },
            Status::Available { release } => StatusModel::Available { release: release@ },
            Status::Downloading => StatusModel::Downloading,
            Status::Ready => StatusModel::Ready,
            Status::Failed { error } => StatusModel::Failed { error: error@ },
        }
    }
}

/// The window that looks for a release.
#[derive(Debug, PartialEq, Eq)]
pub struct Updater {
    pub open: bool,
    pub status: Status,
}

impl Updater {
    /// Starts looking.
    pub fn check_updates(&mut self)
        ensures
            final(self).open,
            final(self).status@ == StatusModel::Checking,
    {
        self.open = true;
        self.status = Status::Checking;
    }

    /// Looking has come to an end.
    pub fn checked(&mut self, result: Result<Status, String>)
        ensures
            final(self).open == old(self).open,
            final(self).status@ == (match result {
                Ok(status) => status@,
                Err(error) => StatusModel::Failed { error: error@ },
            }),
    {
        self.status = match result {
            Ok(status) => status,
            Err(error) => Status::Failed { error },
        };
    }

    /// Starts to install a release. Gives the address and the name of its
    /// archive; a release without one for this platform is left alone.
    pub fn start_update(&mut self, release: Release) -> (out: Option<(String, String)>)
        ensures
            final(self).open == old(self).open,
            match (release.asset, release.asset_name) {
                (Some(url), Some(name)) => final(self).status@ == StatusModel::Downloading && out
                    == Some((url, name)),
                _ => final(self).status@ == old(self).status@ && out is None,
            },
    {
        match (release.asset, release.asset_name) {
            (Some(url), Some(name)) => {
                self.status = Status::Downloading;
                Some((url, name))
            },
            _ => None,
        }
    }

    /// Installing has come to an end.
    pub fn installed(&mut self, result: Result<(), String>)
        ensures
            final(self).open == old(self).open,
            final(self).status@ == (match result {
                Ok(_) => StatusModel::Ready,
                Err(error) => StatusModel::Failed { error: error@ },
            }),
    {
        self.status = match result {
            Ok(_) => Status::Ready,
            Err(error) => Status::Failed { error },
        };
    }
}

/// What the window says.
pub open spec fn described(status: StatusModel, current: Seq<char>) -> Seq<char> {
    match status {
        StatusModel::Checking => "正在检查 GitHub 上的最新版本…"@,
        StatusModel::UpToDate { current } => "已是最新版本（"@ + current + "）。"@,
        StatusModel::Available { release } => "发现新版本 "@ + release.version + "（当前 "@
            + current + "）。"@,
        StatusModel::Downloading => "正在下载新版本…"@,
        StatusModel::Ready => "更新已就绪，正在重启…"@,
        StatusModel::Failed { error } => error,
    }
}

/// What the window says; `current` is the version that runs.
pub fn describe(status: &Status, current: &str) -> (out: String)
    ensures
        out@ == described(status@, current@),
{
    match status {
        Status::Checking => text_copy("正在检查 GitHub 上的最新版本…"),
        Status::UpToDate { current } => {
            let mut out = text_copy("已是最新版本（");
            out.append(current.as_str());
            out.append("）。");
            out
        },
        Status::Available { release } => {
            let mut out = text_copy("发现新版本 ");
            out.append(release.version.as_str());
            out.append("（当前 ");
            out.append(current);
            out.append("）。");
            out
        },
        Status::Downloading => text_copy("正在下载新版本…"),
        Status::Ready => text_copy("更新已就绪，正在重启…"),
        Status::Failed { error } => text_copy(error.as_str()),
    }
}

/// Whether the notes of a release are shown: where there are any.
pub fn shows_notes(release: &Release) -> (yes: bool)
    ensures
        yes == !blank(release.notes@),
{
    !is_blank(chars_of(release.notes.as_str()).as_slice())
}

/// What the window says of an update: a failure in its own words, and of a newer version
/// both its number and the current one.
pub proof fn law_what_is_said_of_updates(
    current: Seq<char>,
    other: Seq<char>,
    release: ReleaseModel,
)
    ensures
        described(StatusModel::Failed { error: other }, current) == other,
        described(StatusModel::UpToDate { current: other }, current) == "已是最新版本（"@ + other
            + "）。"@,
        described(StatusModel::Available { release }, current) == "发现新版本 "@ + release.version
            + "（当前 "@ + current + "）。"@,
        described(StatusModel::Checking, current) == "正在检查 GitHub 上的最新版本…"@,
        described(StatusModel::Downloading, current) == "正在下载新版本…"@,
        described(StatusModel::Ready, current) == "更新已就绪，正在重启…"@,
{
}

/// The model of an update holds all that is known of it.
pub proof fn law_models_hold_the_update(r: Release, s: Status)
    ensures
        r@.version == r.version@ && r@.notes == r.notes@ && r@.url == r.url@,
        r.asset is None ==> r@.asset is None,
        r.asset matches Some(text) ==> r@.asset == Some(text@),
        r.asset_name is None ==> r@.asset_name is None,
        r.asset_name matches Some(text) ==> r@.asset_name == Some(text@),
        s is Checking ==> s@ is Checking,
        s matches Status::UpToDate { current } ==> s@ == (StatusModel::UpToDate {
            current: current@,
        }),
        s matches Status::Available { release } ==> s@ == (StatusModel::Available {
            release: release@,
        }),
        s is Downloading ==> s@ is Downloading,
        s is Ready ==> s@ is Ready,
        s matches Status::Failed { error } ==> s@ == (StatusModel::Failed { error: error@ }),
{
}

} // verus!
