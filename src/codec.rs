use crate::buffer::{buffer_contents, frozen_contents};
use crate::record::{be_u16_value, split_header};
use bytes::{Bytes, BytesMut};
use vstd::prelude::*;
use vstd::std_specs::iter::IteratorSpec;
use vstd::utf8::*;

verus! {

/// What the daemon reads from a connection: the destination name once, then chunks of
/// opaque record bytes.
pub enum LoggestdData {
    FileName(String),
    FileData(Bytes),
}

/// Why a connection breaks the protocol.
#[derive(Debug, Clone, Copy, PartialEq, Eq, Structural)]
pub enum ProtocolError {
    /// The header's name is not well-formed UTF-8.
    InvalidUtf8,
    /// The header's name is a path rather than a plain file name.
    InvalidName,
    /// Record bytes came before any header.
    DataBeforeHeader,
    /// A second name came after a file was opened.
    FileAlreadyOpened,
}

/// Whether a header's name may name a file of the log directory: it holds no path
/// separator and is not the parent directory `..`.
pub open spec fn name_allowed(name: Seq<char>) -> bool {
    &&& !name.contains('/')
    &&& name != seq!['.', '.']
}

/// Relies on std::str::from_utf8: it succeeds exactly on well-formed UTF-8 and then
/// yields the characters that the bytes encode.
pub assume_specification<'a>[ core::str::from_utf8 ](v: &'a [u8]) -> (r: Result<
    &'a str,
    core::str::Utf8Error,
>)
    ensures
        r is Ok <==> valid_utf8(v@),
        r matches Ok(s) ==> s@ == decode_utf8(v@),
;

/// The error of std's UTF-8 validation.
#[verifier::external_type_specification]
#[verifier::external_body]
pub struct ExUtf8Error(core::str::Utf8Error);

/// Whether `name` may name a file of the log directory.
pub fn is_allowed_name(name: &str) -> (r: bool)
    ensures
        r == name_allowed(name@),
{
    let ghost all = name@;
    let mut it = name.chars();
    let ghost mut seen: int = 0;
    let mut has_slash = false;
    let mut all_dots = true;
    let mut count: u8 = 0;
    loop
        invariant
            0 <= seen <= all.len(),
            it.obeys_prophetic_iter_laws(),
            it.remaining() == all.subrange(seen, all.len() as int),
            has_slash == (exists|k: int| 0 <= k < seen && all[k] == '/'),
            all_dots == (forall|k: int| 0 <= k < seen ==> all[k] == '.'),
            count as int == if seen < 3 { seen } else { 3 },
        ensures
            seen == all.len(),
            has_slash == (exists|k: int| 0 <= k < seen && all[k] == '/'),
            all_dots == (forall|k: int| 0 <= k < seen ==> all[k] == '.'),
            count as int == if seen < 3 { seen } else { 3 },
        decreases all.len() - seen,
    {
        let next = it.next();
        match next {
            Some(c) => {
                proof {
                    assert(it.remaining() == all.subrange(seen + 1, all.len() as int));
                    assert(c == all[seen]);
                    seen = seen + 1;
                }
                if c == '/' {
                    has_slash = true;
                }
                assert(has_slash == (exists|k: int| 0 <= k < seen && all[k] == '/')) by {
                    if c == '/' {
                        assert(all[seen - 1] == '/');
                    }
                }
                if c != '.' {
                    all_dots = false;
                }
                if count < 3 {
                    count = count + 1;
                }
            },
            None => {
                proof {
                    assert(seen == all.len());
                }
                break ;
            },
        }
    }
    proof {
        if all_dots && count == 2 {
            assert(all =~= seq!['.', '.']);
        }
        if all == seq!['.', '.'] {
            assert(all[0] == '.' && all[1] == '.');
        }
    }
    !has_slash && !(all_dots && count == 2)
}

/// Incremental framing of one connection: a header first, then opaque data.
pub struct LoggestdCodec {
    sending_data: bool,
}

impl LoggestdCodec {
    /// Whether the header has been read and everything after it passes as data.
    pub closed spec fn is_streaming(&self) -> bool {
        self.sending_data
    }

    /// A codec that waits for the connection's header.
    pub fn new() -> (r: LoggestdCodec)
        ensures
            !r.is_streaming(),
    {
        LoggestdCodec { sending_data: false }
    }

    /// Takes the next item from the bytes received so far.
    ///
    /// Before the header: nothing while the header is incomplete; then the header is
    /// consumed and its name returned, or refused when it is not UTF-8 or not a plain
    /// file name. After it: everything buffered, as one chunk, or nothing when the
    /// buffer is empty.
    pub fn decode(&mut self, src: &mut BytesMut) -> (r: Result<Option<LoggestdData>, ProtocolError>)
        ensures
            !old(self).is_streaming() ==> match split_header(buffer_contents(*old(src))) {
                None => {
                    &&& r matches Ok(None)
                    &&& buffer_contents(*final(src)) == buffer_contents(*old(src))
                    &&& !final(self).is_streaming()
                },
                Some((name, rest)) => {
                    &&& buffer_contents(*final(src)) == rest
                    &&& !valid_utf8(name) ==> r == Err::<Option<LoggestdData>, _>(
                        ProtocolError::InvalidUtf8,
                    ) && !final(self).is_streaming()
                    &&& valid_utf8(name) && !name_allowed(decode_utf8(name)) ==> r == Err::<
                        Option<LoggestdData>,
                        _,
                    >(ProtocolError::InvalidName) && !final(self).is_streaming()
                    &&& valid_utf8(name) && name_allowed(decode_utf8(name)) ==> (final(self).is_streaming() && (r matches Ok(Some(LoggestdData::FileName(s)))
                        && s@ == decode_utf8(name)))
                },
            },
            old(self).is_streaming() ==> {
                &&& final(self).is_streaming()
                &&& buffer_contents(*final(src)) == Seq::<u8>::empty()
                &&& buffer_contents(*old(src)).len() == 0 ==> (r matches Ok(None))
                &&& buffer_contents(*old(src)).len() > 0 ==> (r matches Ok(
                    Some(LoggestdData::FileData(d)),
                ) && frozen_contents(d) == buffer_contents(*old(src)))
            },
    {
        if !self.sending_data {
            let len = src.len();
            if len < 2 {
                return Ok(None);
            }
            let name_len: usize = {
                let view = <BytesMut as AsRef<[u8]>>::as_ref(src);
                (view[0] as usize) * 256 + (view[1] as usize)
            };
            assert(name_len == be_u16_value(
                buffer_contents(*src)[0],
                buffer_contents(*src)[1],
            ));
            if len < name_len + 2 {
                return Ok(None);
            }
            let _length = src.split_to(2);
            let buf = src.split_to(name_len);
            let ghost all = buffer_contents(*old(src));
            assert(buffer_contents(buf) =~= all.subrange(2, 2 + name_len));
            assert(buffer_contents(*src) =~= all.subrange(2 + name_len, all.len() as int));
            let text = match core::str::from_utf8(<BytesMut as AsRef<[u8]>>::as_ref(&buf)) {
                Ok(t) => t,
                Err(_) => {
                    return Err(ProtocolError::InvalidUtf8);
                },
            };
            if !is_allowed_name(text) {
                return Err(ProtocolError::InvalidName);
            }
            self.sending_data = true;
            Ok(Some(LoggestdData::FileName(text.to_owned())))
        } else {
            let buf = src.take();
            if buf.len() == 0 {
                Ok(None)
            } else {
                Ok(Some(LoggestdData::FileData(buf.freeze())))
            }
        }
    }
}

impl Default for LoggestdCodec {
    fn default() -> (r: LoggestdCodec)
        ensures
            !r.is_streaming(),
    {
        LoggestdCodec::new()
    }
}

} // verus!
