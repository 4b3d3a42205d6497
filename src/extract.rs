use vstd::prelude::*;
use vstd::string::*;

verus! {

/// Why a decoding run is refused before any file is read.
#[derive(Debug, PartialEq, Eq)]
pub enum IoymError {
    /// The file does not carry the extension of rotated log files.
    UnsupportedFileType(String),
    /// Standard output takes the text of one file only.
    StdoutForbidsMultipleInputs,
}

/// Where decoded text goes.
#[derive(Debug, Clone, Copy, PartialEq, Eq, Structural)]
pub enum Output {
    /// All text to standard output.
    Stdout,
    /// Each file's text to a sibling file without the extension.
    File,
}

/// The extension of rotated log files, with its dot.
pub open spec fn log_extension() -> Seq<char> {
    seq!['.', 'i', 'o', 'y', 'm']
}

/// Whether a path names a rotated log file: its file name ends with the extension and
/// has something before it.
pub open spec fn has_log_extension(path: Seq<char>) -> bool {
    &&& path.len() >= 6
    &&& path.subrange(path.len() - 5, path.len() as int) == log_extension()
    &&& path[path.len() - 6] != '/'
}

/// Chooses the output: standard output only for a single file.
pub fn select_output(stdout: bool, n_files: usize) -> (r: Result<Output, IoymError>)
    ensures
        stdout && n_files > 1 <==> r is Err,
        r matches Err(e) ==> e == IoymError::StdoutForbidsMultipleInputs,
        r matches Ok(o) ==> (o == Output::Stdout <==> stdout),
{
    if stdout && n_files > 1 {
        Err(IoymError::StdoutForbidsMultipleInputs)
    } else if stdout {
        Ok(Output::Stdout)
    } else {
        Ok(Output::File)
    }
}

/// The outcome of a batch in which every file was attempted: success when every file
/// succeeded, else the failure of the first file that failed, in the order given.
pub fn first_failure<E>(results: Vec<Result<(), E>>) -> (r: Result<(), E>)
    ensures
        r is Ok <==> forall|i: int| 0 <= i < results@.len() ==> #[trigger] results@[i] is Ok,
        r matches Err(e) ==> exists|i: int|
            0 <= i < results@.len() && #[trigger] results@[i] == Err::<(), E>(e) && forall|
                j: int,
            |
                0 <= j < i ==> #[trigger] results@[j] is Ok,
{
    let ghost all = results@;
    let ghost n = results@.len();
    let mut rest = results;
    let mut found: Option<E> = None;
    while rest.len() > 0
        invariant
            rest@.len() <= n,
            rest@ == all.subrange(0, rest@.len() as int),
            n == all.len(),
            found is None ==> forall|i: int| rest@.len() <= i < n ==> #[trigger] all[i] is Ok,
            found matches Some(e) ==> exists|i: int|
                rest@.len() <= i < n && #[trigger] all[i] == Err::<(), E>(e) && forall|j: int|
                    rest@.len() <= j < i ==> #[trigger] all[j] is Ok,
        decreases rest@.len(),
    {
        let ghost before = rest@.len() as int;
        let x = rest.pop();
        match x {
            Some(Err(e)) => {
                assert(all[before - 1] == Err::<(), E>(e));
                found = Some(e);
            },
            _ => {
                assert(all[before - 1] is Ok);
            },
        }
    }
    match found {
        Some(e) => Err(e),
        None => Ok(()),
    }
}

/// The path that the decoded text of `path` is written to: the same path without the
/// extension. A path without it is refused.
pub fn decoded_path(path: &str) -> (r: Result<String, IoymError>)
    ensures
        r is Ok <==> has_log_extension(path@),
        r matches Ok(p) ==> p@ == path@.subrange(0, path@.len() - 5),
        r matches Err(e) ==> (e matches IoymError::UnsupportedFileType(name) && name@ == path@),
{
    let n = path.unicode_len();
    if n < 6 {
        return Err(IoymError::UnsupportedFileType(String::from_str(path)));
    }
    let ghost ext = path@.subrange(n - 5, n as int);
    let ok = path.get_char(n - 5) == '.' && path.get_char(n - 4) == 'i' && path.get_char(n - 3)
        == 'o' && path.get_char(n - 2) == 'y' && path.get_char(n - 1) == 'm' && path.get_char(n - 6)
        != '/';
    proof {
        if ok {
            assert(ext =~= log_extension());
        } else if ext == log_extension() {
            assert(ext[0] == path@[n - 5]);
            assert(ext[1] == path@[n - 4]);
            assert(ext[2] == path@[n - 3]);
            assert(ext[3] == path@[n - 2]);
            assert(ext[4] == path@[n - 1]);
        }
    }
    if !ok {
        return Err(IoymError::UnsupportedFileType(String::from_str(path)));
    }
    Ok(String::from_str(path.substring_char(0, n - 5)))
}

} // verus!
