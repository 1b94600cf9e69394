//! Checks that every commit of a release was reviewed.
pub mod git;
pub mod github;
pub mod report;

use crate::text::decimal;
use crate::text::push_char;
use crate::text::push_decimal;
use vstd::prelude::*;
use vstd::string::StringExecFns;

verus! {

/// The channel a release goes out on.
#[derive(Clone, Copy, Debug, PartialEq, Eq, PartialOrd, Ord, Structural)]
pub enum ReleaseChannel {
    Stable,
    Preview,
}

/// What a release channel appends to a version tag.
pub open spec fn tag_suffix(c: ReleaseChannel) -> Seq<char> {
    match c {
        ReleaseChannel::Stable => Seq::empty(),
        ReleaseChannel::Preview => seq!['-', 'p', 'r', 'e'],
    }
}

impl ReleaseChannel {
    pub fn tag_suffix(&self) -> (r: &'static str)
        ensures
            r@ == tag_suffix(*self),
    {
        match self {
            ReleaseChannel::Stable => {
                proof {
                    reveal_strlit("");
                }
                ""
            },
            ReleaseChannel::Preview => {
                proof {
                    reveal_strlit("-pre");
                }
                "-pre"
            },
        }
    }
}

/// A semantic version: three numbers, then optional pre-release and build
/// metadata, held as their text.
#[derive(Debug, PartialEq, Eq)]
pub struct Version {
    pub major: u64,
    pub minor: u64,
    pub patch: u64,
    pub pre: String,
    pub build: String,
}

/// The mathematical value of a [`Version`].
pub struct VersionV {
    pub major: u64,
    pub minor: u64,
    pub patch: u64,
    pub pre: Seq<char>,
    pub build: Seq<char>,
}

impl View for Version {
    type V = VersionV;

    open spec fn view(&self) -> VersionV {
        VersionV {
            major: self.major,
            minor: self.minor,
            patch: self.patch,
            pre: self.pre@,
            build: self.build@,
        }
    }
}

/// How a version is written: `major.minor.patch`, then `-pre` and `+build`
/// where they are not empty.
pub open spec fn version_text(v: VersionV) -> Seq<char> {
    decimal(v.major as nat) + seq!['.'] + decimal(v.minor as nat) + seq!['.'] + decimal(
        v.patch as nat,
    ) + (if v.pre.len() > 0 {
        seq!['-'] + v.pre
    } else {
        Seq::empty()
    }) + (if v.build.len() > 0 {
        seq!['+'] + v.build
    } else {
        Seq::empty()
    })
}

impl Version {
    /// A version with neither pre-release nor build metadata.
    pub fn new(major: u64, minor: u64, patch: u64) -> (r: Version)
        ensures
            r@ == (VersionV { major, minor, patch, pre: Seq::empty(), build: Seq::empty() }),
    {
        Version { major, minor, patch, pre: String::new(), build: String::new() }
    }

    /// Appends how this version is written to `s`.
    pub fn write_to(&self, s: &mut String)
        ensures
            final(s)@ == old(s)@ + version_text(self@),
    {
        push_decimal(s, self.major);
        push_char(s, '.');
        push_decimal(s, self.minor);
        push_char(s, '.');
        push_decimal(s, self.patch);
        if !self.pre.as_str().is_empty() {
            push_char(s, '-');
            s.append(self.pre.as_str());
        }
        if !self.build.as_str().is_empty() {
            push_char(s, '+');
            s.append(self.build.as_str());
        }
        proof {
            let v = self@;
            let pre = if v.pre.len() > 0 {
                seq!['-'] + v.pre
            } else {
                Seq::empty()
            };
            let build = if v.build.len() > 0 {
                seq!['+'] + v.build
            } else {
                Seq::empty()
            };
            assert(final(s)@ =~= old(s)@ + decimal(v.major as nat) + seq!['.'] + decimal(
                v.minor as nat,
            ) + seq!['.'] + decimal(v.patch as nat) + pre + build);
            assert(version_text(v) =~= decimal(v.major as nat) + seq!['.'] + decimal(
                v.minor as nat,
            ) + seq!['.'] + decimal(v.patch as nat) + pre + build);
        }
    }

    /// How this version is written.
    pub fn to_text(&self) -> (r: String)
        ensures
            r@ == version_text(self@),
    {
        let mut s = String::new();
        self.write_to(&mut s);
        assert(s@ =~= version_text(self@));
        s
    }
}

/// What `semver::Version::parse` makes of a text: its major, minor and patch
/// numbers and the text of its pre-release and build metadata, or `None` when
/// it refuses the text.
pub uninterp spec fn semver_parse(text: Seq<char>) -> Option<(u64, u64, u64, Seq<char>, Seq<char>)>;

/// The message (the `Display` text) of the error with which
/// `semver::Version::parse` refuses a text.
pub uninterp spec fn semver_error_text(text: Seq<char>) -> Seq<char>;

/// Calls `semver::Version::parse` and hands back the parts of the version, or
/// the message of the error that refused the text.
#[verifier::external_body]
fn parse_semver(text: &str) -> (r: Result<(u64, u64, u64, String, String), String>)
    ensures
        match r {
            Ok((major, minor, patch, pre, build)) => semver_parse(text@) == Some(
                (major, minor, patch, pre@, build@),
            ),
            Err(message) => semver_parse(text@) is None && message@ == semver_error_text(text@),
        },
{
    match semver::Version::parse(text) {
        Ok(v) => Ok((v.major, v.minor, v.patch, v.pre.as_str().to_string(), v.build.as_str().to_string())),
        Err(e) => Err(e.to_string()),
    }
}

/// A version that could not be parsed, with the parser's message.
#[derive(Debug, PartialEq, Eq)]
pub struct VersionParseError {
    pub message: String,
}

impl Version {
    /// Parses a semantic version such as `0.180.2` or `1.0.0-pre+build.5`.
    pub fn parse(text: &str) -> (r: Result<Version, VersionParseError>)
        ensures
            match r {
                Ok(v) => semver_parse(text@) == Some((v.major, v.minor, v.patch, v.pre@, v.build@)),
                Err(e) => semver_parse(text@) is None && e.message@ == semver_error_text(text@),
            },
    {
        match parse_semver(text) {
            Ok((major, minor, patch, pre, build)) => Ok(Version { major, minor, patch, pre, build }),
            Err(message) => Err(VersionParseError { message }),
        }
    }
}

/// The git tag of a release.
#[derive(Debug, PartialEq, Eq)]
pub struct VersionTag(pub String);

impl Clone for VersionTag {
    fn clone(&self) -> (r: Self)
        ensures
            r.0@ == self.0@,
    {
        VersionTag(self.0.clone())
    }
}

/// The tag of `version` on `channel`: `v`, the version, the channel's suffix.
pub open spec fn version_tag_text(version: VersionV, channel: ReleaseChannel) -> Seq<char> {
    seq!['v'] + version_text(version) + tag_suffix(channel)
}

impl VersionTag {
    pub fn new(version: &Version, channel: ReleaseChannel) -> (r: VersionTag)
        ensures
            r.0@ == version_tag_text(version@, channel),
    {
        let mut s = String::new();
        push_char(&mut s, 'v');
        version.write_to(&mut s);
        s.append(channel.tag_suffix());
        assert(s@ =~= version_tag_text(version@, channel));
        VersionTag(s)
    }

    pub fn as_str(&self) -> (r: &str)
        ensures
            r@ == self.0@,
    {
        self.0.as_str()
    }
}

/// What to check: the version that is about to be released, its channel, and
/// where the report goes.
#[derive(Debug, PartialEq, Eq)]
pub struct ComplianceArgs {
    pub version: Version,
    pub release_channel: ReleaseChannel,
    pub report_path: String,
}

/// The branch that a version is released from: `v{major}.{minor}.x`.
pub open spec fn version_branch_text(v: VersionV) -> Seq<char> {
    seq!['v'] + decimal(v.major as nat) + seq!['.'] + decimal(v.minor as nat) + seq!['.', 'x']
}

impl ComplianceArgs {
    pub fn new(version: Version, release_channel: ReleaseChannel, report_path: String) -> (r: Self)
        ensures
            r.version == version,
            r.release_channel == release_channel,
            r.report_path == report_path,
    {
        ComplianceArgs { version, release_channel, report_path }
    }

    /// The tag of the version that is about to be released.
    pub fn version_tag(&self) -> (r: VersionTag)
        ensures
            r.0@ == version_tag_text(self.version@, self.release_channel),
    {
        VersionTag::new(&self.version, self.release_channel)
    }

    /// The tag of the release before: same major and patch, one minor less,
    /// no pre-release or build metadata.
    pub fn previous_version_tag(&self) -> (r: VersionTag)
        requires
            self.version.minor > 0,
        ensures
            r.0@ == version_tag_text(
                VersionV {
                    major: self.version.major,
                    minor: (self.version.minor - 1) as u64,
                    patch: self.version.patch,
                    pre: Seq::empty(),
                    build: Seq::empty(),
                },
                self.release_channel,
            ),
    {
        let previous = Version::new(self.version.major, self.version.minor - 1, self.version.patch);
        VersionTag::new(&previous, self.release_channel)
    }

    /// The branch the version is released from.
    pub fn version_branch(&self) -> (r: String)
        ensures
            r@ == version_branch_text(self.version@),
    {
        let mut s = String::new();
        push_char(&mut s, 'v');
        push_decimal(&mut s, self.version.major);
        push_char(&mut s, '.');
        push_decimal(&mut s, self.version.minor);
        push_char(&mut s, '.');
        push_char(&mut s, 'x');
        assert(s@ =~= version_branch_text(self.version@));
        s
    }
}

} // verus!
