//! What the file browser and the launcher show of a file: its text, a hex
//! dump of its bytes, or the size of the image it holds; a content too long
//! to show whole is shown by its start and its end.
use vstd::prelude::*;
use crate::hexdump::{dump_hex, lemma_dump_hex_len, spec_dump_hex};
use crate::text::{chars_of, string_of, sub_chars, utf8_len, utf8_len_between};
use crate::worker::{decode_utf8, utf8_text};

verus! {

/// The width and the height of the image that `image::load_from_memory`
/// decodes from some bytes, or `None` where it fails to decode one.
pub uninterp spec fn decoded_image_size(bytes: Seq<u8>) -> Option<(u32, u32)>;

/// `image::load_from_memory`, then `DynamicImage::width` and `height`
/// (image crate): the contract claims only that the result is the named
/// size of the image that the bytes hold.
#[verifier::external_body]
fn decode_image_size(bytes: &[u8]) -> (r: Option<(u32, u32)>)
    ensures
        r == decoded_image_size(bytes@),
{
    match image::load_from_memory(bytes) {
        Ok(img) => Some((img.width(), img.height())),
        Err(_) => None,
    }
}

/// A file larger than this many bytes is not read whole: its start and its
/// end are dumped in hex.
pub const LARGE_FILE_SIZE: usize = 33554432;

/// The sizes that a preview works with.
#[derive(Clone, Copy, Debug, PartialEq, Eq, Structural)]
pub struct PreviewLimits {
    /// How many bytes of each end of a large file are read.
    pub edge_bytes: usize,
    /// A content of more characters than this is cut.
    pub max_chars: usize,
    /// How many characters of the start and of the end of a cut content
    /// are shown.
    pub head_chars: usize,
    pub tail_chars: usize,
    /// How many bytes of a file the shown part of a cut hex dump stands for.
    pub hidden_binary_bytes: usize,
}

impl PreviewLimits {
    pub open spec fn wf(self) -> bool {
        &&& 0 < self.edge_bytes <= LARGE_FILE_SIZE
        &&& self.head_chars + self.tail_chars <= self.max_chars
        &&& self.hidden_binary_bytes % 16 == 0
        &&& 84 * (self.hidden_binary_bytes / 16) <= self.max_chars
        &&& self.hidden_binary_bytes <= LARGE_FILE_SIZE
    }

    /// The file browser's: 16 KiB of each end of a large file; a content of
    /// more than 32768 characters shows its first 10751 and its last 10752.
    pub fn browser() -> (r: PreviewLimits)
        ensures
            r.wf(),
            r == (PreviewLimits {
                edge_bytes: 16384,
                max_chars: 32768,
                head_chars: 10751,
                tail_chars: 10752,
                hidden_binary_bytes: 4096,
            }),
    {
        PreviewLimits {
            edge_bytes: 16384,
            max_chars: 32768,
            head_chars: 10751,
            tail_chars: 10752,
            hidden_binary_bytes: 4096,
        }
    }

    /// The launcher's: half the browser's.
    pub fn launcher() -> (r: PreviewLimits)
        ensures
            r.wf(),
            r == (PreviewLimits {
                edge_bytes: 8192,
                max_chars: 16384,
                head_chars: 5375,
                tail_chars: 5376,
                hidden_binary_bytes: 2048,
            }),
    {
        PreviewLimits {
            edge_bytes: 8192,
            max_chars: 16384,
            head_chars: 5375,
            tail_chars: 5376,
            hidden_binary_bytes: 2048,
        }
    }
}

/// Where the dump of the end of a large file starts: `edge` bytes before
/// its end, rounded down to a multiple of 32.
pub open spec fn spec_tail_offset(file_size: int, edge: int) -> int {
    (file_size - edge) - (file_size - edge) % 32
}

/// Which bytes of a file the preview reads.
#[derive(Clone, Copy, Debug, PartialEq, Eq, Structural)]
pub enum PreviewRead {
    Whole,
    /// The first `head_len` bytes, and the bytes from `tail_from` to the end.
    Edges { head_len: usize, tail_from: usize },
}

pub fn preview_read(file_size: usize, limits: &PreviewLimits) -> (r: PreviewRead)
    requires
        limits.wf(),
    ensures
        file_size > LARGE_FILE_SIZE ==> r == (PreviewRead::Edges {
            head_len: limits.edge_bytes,
            tail_from: spec_tail_offset(file_size as int, limits.edge_bytes as int) as usize,
        }),
        file_size <= LARGE_FILE_SIZE ==> r is Whole,
{
    if file_size > LARGE_FILE_SIZE {
        let from = file_size - limits.edge_bytes;
        PreviewRead::Edges { head_len: limits.edge_bytes, tail_from: from - from % 32 }
    } else {
        PreviewRead::Whole
    }
}

/// The bytes that the preview read, as `preview_read` asked.
#[derive(Clone, Debug)]
pub enum FileBytes {
    Whole(Vec<u8>),
    Edges { head: Vec<u8>, tail: Vec<u8> },
}

/// How a content is shown.
#[derive(Clone, Debug)]
pub enum Shown {
    Whole(String),
    /// The start and the end of the content, and how many bytes of the
    /// file are left out between them.
    Cut { head: String, hidden: usize, tail: String },
}

/// The preview of a file.
#[derive(Clone, Debug)]
pub enum Preview {
    Image { width: u32, height: u32 },
    /// A text (`is_text`) or a hex dump, and how it is shown.
    Content { content: String, is_text: bool, shown: Shown },
}

/// A content is shown whole where it is short enough, else cut: for a
/// text, the bytes left out are those of the characters between the two
/// parts; for a hex dump, all but the bytes that the shown part dumps.
pub open spec fn shown_as(shown: Shown, content: Seq<char>, is_text: bool, file_size: int, limits: PreviewLimits) -> bool {
    if content.len() > limits.max_chars {
        shown matches Shown::Cut { head, hidden, tail } && head@ == content.take(
            limits.head_chars as int,
        ) && tail@ == content.skip(content.len() - limits.tail_chars) && hidden == if is_text {
            utf8_len(content.subrange(limits.head_chars as int, content.len() - limits.tail_chars)) as int
        } else {
            file_size - limits.hidden_binary_bytes
        }
    } else {
        shown matches Shown::Whole(s) && s@ == content
    }
}

fn shown(content: &String, is_text: bool, file_size: usize, limits: &PreviewLimits) -> (r: Shown)
    requires
        limits.wf(),
        is_text ==> utf8_len(content@) <= usize::MAX,
        !is_text && content@.len() > limits.max_chars ==> file_size >= limits.hidden_binary_bytes,
    ensures
        shown_as(r, content@, is_text, file_size as int, *limits),
{
    let chars = chars_of(content.as_str());
    let n = chars.len();
    if n > limits.max_chars {
        let head = string_of(&sub_chars(&chars, 0, limits.head_chars));
        let tail = string_of(&sub_chars(&chars, n - limits.tail_chars, n));
        let hidden = if is_text {
            utf8_len_between(&chars, limits.head_chars, n - limits.tail_chars)
        } else {
            file_size - limits.hidden_binary_bytes
        };
        assert(content@.take(limits.head_chars as int) =~= content@.subrange(0, limits.head_chars as int));
        assert(content@.skip(n - limits.tail_chars) =~= content@.subrange(n - limits.tail_chars, n as int));
        Shown::Cut { head, hidden, tail }
    } else {
        Shown::Whole(content.clone())
    }
}

/// A hex dump of fewer bytes than a cut dump stands for is not cut.
proof fn lemma_short_dump_is_whole(bytes: Seq<u8>, limits: PreviewLimits)
    requires
        limits.wf(),
        bytes.len() <= LARGE_FILE_SIZE,
        spec_dump_hex(bytes, 0).len() > limits.max_chars,
    ensures
        bytes.len() >= limits.hidden_binary_bytes,
{
    lemma_dump_hex_len(bytes, 0);
    let n = bytes.len() as int;
    let h = limits.hidden_binary_bytes as int;
    let m = limits.max_chars as int;
    if n < h {
        assert((n + 15) / 16 <= h / 16) by (nonlinear_arith)
            requires
                0 <= n < h,
                h % 16 == 0,
        ;
        assert(84 * ((n + 15) / 16) <= 84 * (h / 16)) by (nonlinear_arith)
            requires
                (n + 15) / 16 <= h / 16,
        ;
    }
}

/// The preview of a file of `file_size` bytes from the bytes read: of a
/// large file, a hex dump of its two ends; of another, its text where it is
/// UTF-8, else the size of its image where it holds one, else a hex dump.
pub fn preview(file_size: usize, bytes: FileBytes, limits: &PreviewLimits) -> (r: Preview)
    requires
        limits.wf(),
        file_size > LARGE_FILE_SIZE ==> (bytes matches FileBytes::Edges { head, tail } && head@.len()
            == limits.edge_bytes && tail@.len() == file_size - spec_tail_offset(
            file_size as int,
            limits.edge_bytes as int,
        )),
        file_size <= LARGE_FILE_SIZE ==> (bytes matches FileBytes::Whole(b) && b@.len() == file_size),
    ensures
        match bytes {
            FileBytes::Edges { head, tail } => r matches Preview::Content { content, is_text, shown }
                && !is_text && content@ == spec_dump_hex(head@, 0) + spec_dump_hex(
                tail@,
                spec_tail_offset(file_size as int, limits.edge_bytes as int) as nat,
            ) && shown_as(shown, content@, false, file_size as int, *limits),
            FileBytes::Whole(b) => match utf8_text(b@) {
                Some(t) => r matches Preview::Content { content, is_text, shown } && is_text
                    && content@ == t && shown_as(shown, t, true, file_size as int, *limits),
                None => match decoded_image_size(b@) {
                    Some((w, h)) => r matches Preview::Image { width, height } && width == w && height
                        == h,
                    None => r matches Preview::Content { content, is_text, shown } && !is_text
                        && content@ == spec_dump_hex(b@, 0) && shown_as(
                        shown,
                        content@,
                        false,
                        file_size as int,
                        *limits,
                    ),
                },
            },
        },
{
    match bytes {
        FileBytes::Edges { head, tail } => {
            let from = file_size - limits.edge_bytes;
            let tail_from = from - from % 32;
            let mut content = dump_hex(head.as_slice(), 0);
            let end = dump_hex(tail.as_slice(), tail_from);
            content.append(end.as_str());
            let shown = shown(&content, false, file_size, limits);
            Preview::Content { content, is_text: false, shown }
        },
        FileBytes::Whole(b) => match decode_utf8(b.as_slice()) {
            Some(text) => {
                let shown = shown(&text, true, file_size, limits);
                Preview::Content { content: text, is_text: true, shown }
            },
            None => match decode_image_size(b.as_slice()) {
                Some((width, height)) => Preview::Image { width, height },
                None => {
                    let content = dump_hex(b.as_slice(), 0);
                    proof {
                        if content@.len() > limits.max_chars {
                            lemma_short_dump_is_whole(b@, *limits);
                        }
                    }
                    let shown = shown(&content, false, file_size, limits);
                    Preview::Content { content, is_text: false, shown }
                },
            },
        },
    }
}

} // verus!
