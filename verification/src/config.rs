//! What can be configured.

use vstd::prelude::*;

verus! {

/// How the directory of an application is named differently.
#[derive(Debug)]
pub struct Override {
    pub name: Option<String>,
    pub regex: Option<String>,
    pub format: Option<String>,
    pub delegate: Option<String>,
    pub yearly: bool,
    pub monthly: bool,
    pub callback: Option<String>,
}

/// What an override makes the new name of.
#[derive(Debug)]
pub enum Reformatter {
    /// A template for the parts that the regular expression captured.
    Format(String),
    /// A program that prints the name.
    Delegate(String),
}

/// Where a monitor lies in real pixels.
#[derive(Debug)]
pub struct MonitorPosition {
    pub id: String,
    pub x: i32,
    pub y: i32,
}

/// The format that screenshots are written in.
#[derive(Debug, Clone, Copy, PartialEq, Eq, Structural)]
pub enum FileFormat {
    Png,
    Webp,
}

/// The configuration.
#[derive(Debug)]
pub struct Config {
    pub screenshot_dir: String,
    pub fallback: String,
    pub ignored_parents: Vec<String>,
    pub format: FileFormat,
    pub compression: u8,
    pub callback: Option<String>,
    pub timeout: u64,
    pub monitor_positions: Vec<MonitorPosition>,
    pub overrides: Vec<Override>,
}

/// Why a configuration is refused.
#[derive(Debug, Clone, Copy, PartialEq, Eq, Structural)]
pub enum ConfigError {
    /// An override has both a format and a delegate.
    FormatAndDelegate,
    /// The screenshot directory is not an absolute path.
    RelativeDirectory,
    /// The screenshot directory is not a directory.
    NotADirectory,
}

impl Default for FileFormat {
    fn default() -> (r: Self)
        ensures
            r == FileFormat::Png,
    {
        FileFormat::Png
    }
}

impl FileFormat {
    /// The extension of files in this format.
    pub fn extension(self) -> (r: &'static str)
        ensures
            r@ == match self {
                FileFormat::Png => "png"@,
                FileFormat::Webp => "webp"@,
            },
    {
        match self {
            FileFormat::Png => "png",
            FileFormat::Webp => "webp",
        }
    }
}

impl Override {
    /// What the new name is made of; an override cannot have both a format and a delegate.
    pub fn transform(&self) -> (r: Result<Option<Reformatter>, ConfigError>)
        ensures
            match r {
                Err(e) => e == ConfigError::FormatAndDelegate && self.format is Some
                    && self.delegate is Some,
                Ok(None) => self.format is None && self.delegate is None,
                Ok(Some(Reformatter::Format(f))) => self.delegate is None && (self.format matches Some(g)
                    && f@ == g@),
                Ok(Some(Reformatter::Delegate(d))) => self.format is None && (
                self.delegate matches Some(e) && d@ == e@),
            },
    {
        match (&self.format, &self.delegate) {
            (Some(_), Some(_)) => Err(ConfigError::FormatAndDelegate),
            (Some(f), None) => Ok(Some(Reformatter::Format(f.clone()))),
            (None, Some(d)) => Ok(Some(Reformatter::Delegate(d.clone()))),
            (None, None) => Ok(None),
        }
    }
}

/// An empty path stands for no path.
pub fn empty_path_is_none(path: String) -> (r: Option<String>)
    ensures
        r == if path@.len() == 0 {
            None::<String>
        } else {
            Some(path)
        },
{
    if path.as_str().unicode_len() == 0 {
        None
    } else {
        Some(path)
    }
}

impl Config {
    /// No override has both a format and a delegate.
    pub open spec fn overrides_valid(&self) -> bool {
        forall|i: int|
            0 <= i < self.overrides@.len() ==> !((#[trigger] self.overrides@[i]).format is Some
                && self.overrides@[i].delegate is Some)
    }

    /// Whether the configuration can be used, given whether the screenshot directory is one.
    pub fn validate(&self, is_dir: bool) -> (r: Result<(), ConfigError>)
        ensures
            r == if !self.overrides_valid() {
                Err::<(), ConfigError>(ConfigError::FormatAndDelegate)
            } else if !(self.screenshot_dir@.len() > 0 && self.screenshot_dir@[0] == '/') {
                Err(ConfigError::RelativeDirectory)
            } else if !is_dir {
                Err(ConfigError::NotADirectory)
            } else {
                Ok(())
            },
    {
        let mut i: usize = 0;
        while i < self.overrides.len()
            invariant
                i <= self.overrides@.len(),
                forall|k: int|
                    0 <= k < i ==> !((#[trigger] self.overrides@[k]).format is Some
                        && self.overrides@[k].delegate is Some),
            decreases self.overrides@.len() - i,
        {
            if self.overrides[i].format.is_some() && self.overrides[i].delegate.is_some() {
                assert(!self.overrides_valid());
                return Err(ConfigError::FormatAndDelegate);
            }
            i = i + 1;
        }
        let dir = self.screenshot_dir.as_str();
        if dir.unicode_len() == 0 || dir.get_char(0) != '/' {
            return Err(ConfigError::RelativeDirectory);
        }
        if !is_dir {
            return Err(ConfigError::NotADirectory);
        }
        Ok(())
    }

    /// How many seconds a selection may take; zero means any number.
    pub fn deadline(&self) -> (r: Option<u64>)
        ensures
            r == if self.timeout > 0 {
                Some(self.timeout)
            } else {
                None
            },
    {
        if self.timeout > 0 {
            Some(self.timeout)
        } else {
            None
        }
    }
}

} // verus!
