//! What the engine decides from names and paths: whether a file is audio
//! that it can index, and whether a directory may be registered for
//! scanning.

use vstd::prelude::*;
use vstd::string::*;

verus! {

/// The lowercase form of a text, as Unicode defines it: what
/// `str::to_lowercase` returns for it.
pub uninterp spec fn lowercase_of(s: Seq<char>) -> Seq<char>;

/// `str::to_lowercase`: the lowercase equivalent of the whole text, a
/// function of the text alone.
#[verifier::external_body]
pub(crate) fn to_lowercase(s: &str) -> (lower: String)
    ensures
        lower@ == lowercase_of(s@),
{
    s.to_lowercase()
}

/// Where the last `mark` of a text stands, or `-1` where it has none.
pub open spec fn last_of(text: Seq<char>, mark: char) -> int
    decreases text.len(),
{
    if text.len() == 0 {
        -1
    } else if text.last() == mark {
        text.len() - 1
    } else {
        last_of(text.drop_last(), mark)
    }
}

/// Where the last `.` of a text stands, or `-1` where it has none.
pub open spec fn last_dot(text: Seq<char>) -> int {
    last_of(text, '.')
}

/// The last mark is a mark, and no mark follows it.
pub proof fn lemma_last_of(text: Seq<char>, mark: char)
    ensures
        -1 <= last_of(text, mark) < text.len(),
        last_of(text, mark) >= 0 ==> text[last_of(text, mark)] == mark,
        forall|j: int| last_of(text, mark) < j < text.len() ==> text[j] != mark,
    decreases text.len(),
{
    if text.len() > 0 && text.last() != mark {
        let head = text.drop_last();
        lemma_last_of(head, mark);
        assert forall|j: int| last_of(text, mark) < j < text.len() implies text[j] != mark by {
            if j < head.len() {
                assert(text[j] == head[j]);
            }
        }
    }
}

/// A position that holds the mark with no mark behind it is that of the
/// last mark; a text without the mark has none.
pub proof fn lemma_last_of_is(text: Seq<char>, mark: char, at: int)
    requires
        -1 <= at < text.len(),
        at >= 0 ==> text[at] == mark,
        forall|j: int| at < j < text.len() ==> text[j] != mark,
    ensures
        last_of(text, mark) == at,
{
    lemma_last_of(text, mark);
    let found = last_of(text, mark);
    if found > at {
        assert(text[found] != mark);
    } else if found < at {
        assert(text[at] != mark);
    }
}

/// The number of characters of `text` and the place of its last `mark`,
/// if it has one.
fn find_last(text: &str, mark: char) -> (found: (usize, Option<usize>))
    ensures
        found.0 == text@.len(),
        match found.1 {
            Some(at) => at == last_of(text@, mark) && at < found.0,
            None => last_of(text@, mark) == -1,
        },
{
    let n: usize = text.unicode_len();
    let mut behind: usize = n;
    // Walk back from the end to the last mark.
    while behind > 0 && text.get_char(behind - 1) != mark
        invariant
            n == text@.len(),
            behind <= n,
            forall|j: int| behind <= j < n ==> text@[j] != mark,
        decreases behind,
    {
        behind = behind - 1;
    }
    proof {
        lemma_last_of_is(text@, mark, behind - 1);
    }
    if behind == 0 {
        (n, None)
    } else {
        (n, Some(behind - 1))
    }
}

/// The extension of a file name: what follows its last `.`. A name
/// without a `.`, and one whose only `.` is its first character, has
/// none.
pub open spec fn name_extension(file_name: Seq<char>) -> Option<Seq<char>> {
    if last_dot(file_name) <= 0 {
        None
    } else {
        Some(file_name.subrange(last_dot(file_name) + 1, file_name.len() as int))
    }
}

/// The text of an optional piece of text.
pub open spec fn text_of(piece: Option<&str>) -> Option<Seq<char>> {
    match piece {
        Some(text) => Some(text@),
        None => None,
    }
}

/// The extension of a file name, if it has one: `file_name` is the last
/// component of a path.
pub fn file_extension(file_name: &str) -> (ext: Option<&str>)
    ensures
        text_of(ext) == name_extension(file_name@),
{
    let (n, dot) = find_last(file_name, '.');
    match dot {
        Some(at) => {
            if at == 0 {
                None
            } else {
                Some(file_name.substring_char(at + 1, n))
            }
        },
        None => None,
    }
}

/// The extension that marks a file the engine can decode: `wav`.
pub open spec fn audio_extension() -> Seq<char> {
    seq!['w', 'a', 'v']
}

/// Whether a text that is in lowercase already is the extension of the
/// files that the engine can decode: three characters, `w`, `a`, `v`.
pub fn is_wav(lowercased: &str) -> (wav: bool)
    ensures
        wav == (lowercased@ == audio_extension()),
        wav == (lowercased@.len() == 3 && lowercased@[0] == 'w' && lowercased@[1] == 'a'
            && lowercased@[2] == 'v'),
{
    let wav = lowercased.unicode_len() == 3 && lowercased.get_char(0) == 'w'
        && lowercased.get_char(1) == 'a' && lowercased.get_char(2) == 'v';
    proof {
        if wav {
            assert(lowercased@ =~= audio_extension());
        }
    }
    wav
}

/// Whether a file extension, if there is one, names a supported format.
pub open spec fn is_audio_extension_spec(ext: Option<Seq<char>>) -> bool {
    match ext {
        Some(e) => lowercase_of(e) == audio_extension(),
        None => false,
    }
}

/// Whether an extension names a supported audio format, whatever its case.
pub fn is_audio_extension(ext: Option<&str>) -> (audio: bool)
    ensures
        audio == is_audio_extension_spec(text_of(ext)),
{
    match ext {
        Some(e) => {
            let lower = to_lowercase(e);
            is_wav(lower.as_str())
        },
        None => false,
    }
}

/// Whether a file is audio that the engine can index, judged by the
/// extension of its name: `file_name` is the last component of the file's
/// path.
pub fn is_audio_file(file_name: &str) -> (audio: bool)
    ensures
        audio == is_audio_extension_spec(name_extension(file_name@)),
{
    is_audio_extension(file_extension(file_name))
}

/// What follows the last `.` of `path`; all of `path` where it has none.
pub open spec fn last_piece(path: Seq<char>) -> Seq<char> {
    path.subrange(last_dot(path) + 1, path.len() as int)
}

/// The part of a file path that names its format: what follows the last
/// `.`, or the whole path where there is no `.`.
pub fn extension_of(path: &str) -> (ext: &str)
    ensures
        ext@ == last_piece(path@),
{
    let (n, dot) = find_last(path, '.');
    match dot {
        Some(at) => path.substring_char(at + 1, n),
        None => {
            let whole = path.substring_char(0, n);
            whole
        },
    }
}

/// Whether a file path names a WAV file: its last piece, in lowercase, is
/// `wav`.
pub open spec fn names_wav(path: Seq<char>) -> bool {
    lowercase_of(last_piece(path)) == audio_extension()
}

/// Whether the decoder accepts the file at `path`, judged by the text
/// behind its last `.`.
pub fn has_wav_extension(path: &str) -> (wav: bool)
    ensures
        wav == names_wav(path@),
{
    let lower = to_lowercase(extension_of(path));
    is_wav(lower.as_str())
}

/// The last component of a path whose components are parted by `/`: what
/// follows the last `/`, or the whole path where there is none. A path
/// that ends in `/`, in `.` or in `..` as its last component names no
/// file.
pub open spec fn file_name_of(path: Seq<char>) -> Option<Seq<char>> {
    let name = path.subrange(last_of(path, '/') + 1, path.len() as int);
    if name.len() == 0 || name == "."@ || name == ".."@ {
        None
    } else {
        Some(name)
    }
}

/// The name of the file at `path`, if the path names one.
pub fn file_name(path: &str) -> (name: Option<&str>)
    ensures
        text_of(name) == file_name_of(path@),
{
    proof {
        reveal_strlit(".");
        reveal_strlit("..");
    }
    let (n, slash) = find_last(path, '/');
    let start: usize = match slash {
        Some(at) => at + 1,
        None => 0,
    };
    let name = path.substring_char(start, n);
    let len: usize = n - start;
    if len == 0 {
        None
    } else if len == 1 && name.get_char(0) == '.' {
        proof {
            assert(name@ =~= "."@);
        }
        None
    } else if len == 2 && name.get_char(0) == '.' && name.get_char(1) == '.' {
        proof {
            assert(name@ =~= ".."@);
        }
        None
    } else {
        Some(name)
    }
}

/// The name of the file at `path`, for a path that names one.
pub fn get_file_name(path: &str) -> (name: String)
    requires
        file_name_of(path@) is Some,
    ensures
        name@ == file_name_of(path@)->0,
{
    let (n, slash) = find_last(path, '/');
    let start: usize = match slash {
        Some(at) => at + 1,
        None => 0,
    };
    String::from_str(path.substring_char(start, n))
}

/// Why a directory cannot be registered.
#[derive(Debug)]
pub enum PathError {
    /// The existence check itself failed; the text is the system's report.
    Unreadable { path: String, cause: String },
    /// Nothing exists at the path.
    Missing { path: String },
}

impl PathError {
    /// The path that was refused.
    pub open spec fn path(&self) -> Seq<char> {
        match self {
            PathError::Unreadable { path, cause } => path@,
            PathError::Missing { path } => path@,
        }
    }

    /// The system's report, where the existence check itself failed.
    pub open spec fn cause(&self) -> Option<Seq<char>> {
        match self {
            PathError::Unreadable { path, cause } => Some(cause@),
            PathError::Missing { path } => None,
        }
    }
}

/// Admits a directory for scanning if it exists. `on_disk` is what the
/// file system answered when asked whether there is something at `path`:
/// only a plain yes admits the path, which is then returned as it was
/// given.
pub fn parse_path(path: &str, on_disk: Result<bool, String>) -> (parsed: Result<String, PathError>)
    ensures
        parsed is Ok <==> on_disk == Ok::<bool, String>(true),
        parsed matches Ok(admitted) ==> admitted@ == path@,
        parsed matches Err(refusal) ==> refusal.path() == path@ && refusal.cause()
            == (match on_disk {
            Ok(_) => None,
            Err(report) => Some(report@),
        }),
{
    match on_disk {
        Ok(true) => Ok(String::from_str(path)),
        Ok(false) => Err(PathError::Missing { path: String::from_str(path) }),
        Err(cause) => Err(PathError::Unreadable { path: String::from_str(path), cause }),
    }
}

} // verus!
