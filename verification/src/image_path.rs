//! Validated image paths: strings that can safely be joined below a base
//! directory.

use vstd::prelude::*;
use vstd::std_specs::iter::IteratorSpec;

verus! {

/// An error pertaining to an image path.
#[derive(Clone, Copy, Debug, Eq, Hash, Ord, PartialEq, PartialOrd, Structural)]
pub enum Error {
    /// Image path is empty.
    Empty,
    /// Image path contains a colon (`:`) character.
    ContainsColon,
    /// Image path contains a backslash (`\`) character.
    ContainsBackslash,
    /// Image path contains an empty component, mostly due to a leading,
    /// trailing or double slash.
    ContainsEmptyComponent,
    /// Image path contains a `..` component, which could traverse out of the
    /// designated folder.
    ContainsDotDotComponent,
}

/// The path contains an empty slash-separated component.
pub open spec fn has_empty_component(s: Seq<char>) -> bool {
    s[0] == '/' || s[s.len() - 1] == '/' || exists|i: int| 0 <= i && i + 1 < s.len() && (
    #[trigger] s[i]) == '/' && s[i + 1] == '/'
}

/// The path contains a slash-separated component that is exactly `..`.
pub open spec fn has_dot_dot_component(s: Seq<char>) -> bool {
    exists|i: int| 0 <= i && i + 2 <= s.len() && (#[trigger] s[i]) == '.' && s[i + 1] == '.'
        && (i == 0 || s[i - 1] == '/') && (i + 2 == s.len() || s[i + 2] == '/')
}

/// A string that the validating constructor accepts: nonempty, free of colons
/// and backslashes, with no empty and no `..` component.
pub open spec fn valid_image_path(s: Seq<char>) -> bool {
    &&& s.len() > 0
    &&& !s.contains(':')
    &&& !s.contains('\\')
    &&& !has_empty_component(s)
    &&& !has_dot_dot_component(s)
}

/// The first violated rule, in the order the constructor checks them.
pub open spec fn spec_image_path_error(s: Seq<char>) -> Error {
    if s.len() == 0 {
        Error::Empty
    } else if s.contains(':') {
        Error::ContainsColon
    } else if s.contains('\\') {
        Error::ContainsBackslash
    } else if has_empty_component(s) {
        Error::ContainsEmptyComponent
    } else {
        Error::ContainsDotDotComponent
    }
}

/// Every slash of `a` stands as the single character `sep` in `b`.
pub open spec fn maps_slashes_to(a: Seq<char>, b: Seq<char>, sep: char) -> bool {
    forall|i: int| 0 <= i < a.len() && a[i] == '/' ==> #[trigger] b[i] == sep
}

/// A path to an image.
///
/// An image path is a string that complies with these rules:
/// * It is not empty.
/// * It contains neither a colon (`:`, U+003A) nor a backslash (`\`, U+005C).
/// * When split at slash (`/`, U+002F) characters, none of the components is
///   empty.
/// * When split at slash characters, none of the components equals `..`.
#[derive(Clone, Debug, Eq, Hash, Ord, PartialEq, PartialOrd)]
pub struct ImagePath(String);

impl View for ImagePath {
    type V = Seq<char>;

    /// The characters of this path.
    closed spec fn view(&self) -> Seq<char> {
        self.0@
    }
}

impl ImagePath {
    /// Validates a string as an image path.
    #[verifier::loop_isolation(false)]
    pub fn try_from_str(s: &str) -> (r: Result<ImagePath, Error>)
        ensures
            r is Ok <==> valid_image_path(s@),
            r matches Ok(p) ==> p@ == s@,
            r matches Err(e) ==> e == spec_image_path_error(s@),
    {
        if s.is_empty() {
            return Err(Error::Empty);
        }

        // collect the characters once; every rule is then a scan over them
        let mut chars: Vec<char> = Vec::new();
        let mut it = s.chars();
        loop
            invariant
                it.decrease() is Some,
                chars@ + it.remaining() == s@,
            decreases it.decrease()->0,
        {
            match it.next() {
                Some(c) => {
                    chars.push(c);
                    proof {
                        assert(chars@ + it.remaining() =~= s@);
                    }
                },
                None => {
                    break;
                },
            }
        }
        proof {
            assert(chars@ =~= s@);
        }

        let n = chars.len();
        let mut i: usize = 0;
        while i < n
            invariant
                i <= n,
                forall|k: int| 0 <= k < i ==> s@[k] != ':',
            decreases n - i,
        {
            if chars[i] == ':' {
                return Err(Error::ContainsColon);
            }
            i = i + 1;
        }
        let mut i: usize = 0;
        while i < n
            invariant
                i <= n,
                forall|k: int| 0 <= k < i ==> s@[k] != '\\',
            decreases n - i,
        {
            if chars[i] == '\\' {
                return Err(Error::ContainsBackslash);
            }
            i = i + 1;
        }

        if chars[0] == '/' || chars[n - 1] == '/' {
            return Err(Error::ContainsEmptyComponent);
        }
        let mut i: usize = 0;
        while n - i > 1
            invariant
                i <= n,
                forall|k: int| 0 <= k && k + 1 < i + 1 ==> !((#[trigger] s@[k]) == '/' && s@[k + 1] == '/'),
            decreases n - i,
        {
            if chars[i] == '/' && chars[i + 1] == '/' {
                return Err(Error::ContainsEmptyComponent);
            }
            i = i + 1;
        }

        let mut i: usize = 0;
        while n - i >= 2
            invariant
                i <= n,
                forall|k: int| 0 <= k < i ==> !((#[trigger] s@[k]) == '.' && s@[k + 1] == '.'
                    && (k == 0 || s@[k - 1] == '/') && (k + 2 == s@.len() || s@[k + 2] == '/')),
            decreases n - i,
        {
            if chars[i] == '.' && chars[i + 1] == '.' && (i == 0 || chars[i - 1] == '/') && (i + 2
                == n || chars[i + 2] == '/') {
                return Err(Error::ContainsDotDotComponent);
            }
            i = i + 1;
        }

        // good enough
        Ok(ImagePath(s.to_owned()))
    }

    /// The path as a string.
    pub fn as_str(&self) -> (r: &str)
        ensures
            r@ == self@,
    {
        self.0.as_str()
    }

    /// The path with the platform's separator in place of every slash, ready
    /// to be joined below a base directory.
    pub fn to_relative_os_path(&self) -> (r: String)
        ensures
            r@.len() == self@.len(),
            forall|i: int| 0 <= i < self@.len() && self@[i] != '/' ==> r@[i] == self@[i],
            exists|sep: char| #[trigger] maps_slashes_to(self@, r@, sep),
    {
        let sep = main_separator();
        let r = replace_char(self.0.as_str(), '/', sep);
        proof {
            assert(r@.len() == self@.len());
            assert(maps_slashes_to(self@, r@, sep));
        }
        r
    }

    /// The path joined below the given base directory, with the platform's
    /// separator in place of every slash.
    pub fn to_os_path(&self, base_path: &std::path::PathBuf) -> std::path::PathBuf {
        let relative_path = self.to_relative_os_path();
        join_path(base_path, relative_path.as_str())
    }
}

impl std::str::FromStr for ImagePath {
    type Err = Error;

    fn from_str(s: &str) -> Result<Self, Self::Err> {
        Self::try_from_str(s)
    }
}

#[verifier::external_type_specification]
#[verifier::external_body]
pub struct ExPathBuf(std::path::PathBuf);

/// Relies on std::path::MAIN_SEPARATOR: the platform's path separator
/// character; which character that is depends on the platform, so nothing
/// more is assumed of it.
#[verifier::external_body]
fn main_separator() -> (c: char) {
    std::path::MAIN_SEPARATOR
}

/// Relies on str::replace: with a single replacement character, every
/// occurrence of the pattern character is replaced by it and every other
/// character is kept.
#[verifier::external_body]
fn replace_char(s: &str, from: char, to: char) -> (r: String)
    ensures
        r@ == s@.map_values(|c: char| if c == from { to } else { c }),
{
    s.replace(from, to.to_string().as_str())
}

/// Relies on Path::join: appends a relative path to a base path.
#[verifier::external_body]
fn join_path(base: &std::path::PathBuf, rel: &str) -> std::path::PathBuf {
    base.join(rel)
}

} // verus!
