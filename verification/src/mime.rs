//! The header section of a raw MIME message: how it is split, and which headers leave the relay.

use vstd::prelude::*;
use vstd::slice::*;
use vstd::utf8::*;

use crate::text;

verus! {

/// Why a raw message cannot be forwarded.
#[derive(Debug, Clone, Copy, PartialEq, Eq, Structural)]
pub enum MimeError {
    /// Nothing separates a header section from a body.
    MissingSeparator,
    /// The first header line is a folded one.
    FoldWithoutHeader,
    /// A header block holds no line.
    EmptyBlock,
    /// The first line of a header block has no colon.
    MissingColon,
    /// What stands before the colon is not UTF-8.
    NameNotUtf8,
    /// The message as it would be sent is not UTF-8.
    MessageNotUtf8,
}

impl MimeError {
    /// The error in words.
    pub open spec fn text(self) -> Seq<char> {
        match self {
            MimeError::MissingSeparator => "raw MIME message is missing header/body separator"@,
            MimeError::FoldWithoutHeader =>
                "encountered folded header without a preceding header"@,
            MimeError::EmptyBlock => "header block unexpectedly empty"@,
            MimeError::MissingColon => "header is missing ':' separator"@,
            MimeError::NameNotUtf8 => "header name is not valid UTF-8"@,
            MimeError::MessageNotUtf8 => "raw MIME message is not valid UTF-8"@,
        }
    }

    /// Says what is wrong with the message.
    pub fn message(&self) -> (message: String)
        ensures
            message@ == self.text(),
    {
        let message = match self {
            MimeError::MissingSeparator => "raw MIME message is missing header/body separator",
            MimeError::FoldWithoutHeader => "encountered folded header without a preceding header",
            MimeError::EmptyBlock => "header block unexpectedly empty",
            MimeError::MissingColon => "header is missing ':' separator",
            MimeError::NameNotUtf8 => "header name is not valid UTF-8",
            MimeError::MessageNotUtf8 => "raw MIME message is not valid UTF-8",
        };
        message.to_owned()
    }
}

/// The end of a line on the wire.
pub open spec fn crlf() -> Seq<u8> {
    seq![13u8, 10u8]
}

/// Whether `pattern` stands in `s` at index `i`.
pub open spec fn occurs_at(s: Seq<u8>, pattern: Seq<u8>, i: int) -> bool {
    0 <= i && i + pattern.len() <= s.len() && s.subrange(i, i + pattern.len()) == pattern
}

/// The first index at or after `from` at which `pattern` stands in `s`.
pub open spec fn position_from(s: Seq<u8>, pattern: Seq<u8>, from: int) -> Option<int>
    decreases s.len() - from,
{
    if from >= s.len() || from + pattern.len() > s.len() {
        None
    } else if occurs_at(s, pattern, from) {
        Some(from)
    } else {
        position_from(s, pattern, from + 1)
    }
}

/// The header section and the body of `raw`: they are parted by the first blank line in CRLF form
/// or, where there is none, by the first one in LF form.
pub open spec fn message_parts(raw: Seq<u8>) -> Option<(Seq<u8>, Seq<u8>)> {
    match position_from(raw, crlf() + crlf(), 0) {
        Some(i) => Some((raw.take(i), raw.skip(i + 4))),
        None => match position_from(raw, seq![10u8, 10u8], 0) {
            Some(i) => Some((raw.take(i), raw.skip(i + 2))),
            None => None,
        },
    }
}

/// Whether a line of `s` ends at index `i`: with LF, or with CR and LF.
pub open spec fn breaks_at(s: Seq<u8>, i: int) -> bool {
    s[i] == 10 || (s[i] == 13 && i + 1 < s.len() && s[i + 1] == 10)
}

/// The number of bytes of the line end at index `i`.
pub open spec fn break_len(s: Seq<u8>, i: int) -> int {
    if s[i] == 10 {
        1
    } else {
        2
    }
}

/// The first index at or after `from` at which a line of `s` ends.
pub open spec fn next_break(s: Seq<u8>, from: int) -> Option<int>
    decreases s.len() - from,
{
    if from >= s.len() {
        None
    } else if breaks_at(s, from) {
        Some(from)
    } else {
        next_break(s, from + 1)
    }
}

/// The lines of `s` without their ends; a rest without a line end is a line too, unless empty.
pub open spec fn header_lines(s: Seq<u8>) -> Seq<Seq<u8>>
    decreases s.len(),
{
    if s.len() == 0 {
        Seq::empty()
    } else {
        match next_break(s, 0) {
            None => seq![s],
            Some(i) => {
                proof {
                    lemma_next_break_bounds(s, 0);
                }
                seq![s.take(i)] + header_lines(s.skip(i + break_len(s, i)))
            },
        }
    }
}

/// Whether a line continues the header before it.
pub open spec fn is_folded(line: Seq<u8>) -> bool {
    line.len() > 0 && (line[0] == 32 || line[0] == 9)
}

/// The lines grouped by header: a header's own line and the folded lines that follow it. Empty
/// lines are passed over. There is no grouping when a folded line has no header before it.
pub open spec fn header_blocks(lines: Seq<Seq<u8>>) -> Option<Seq<Seq<Seq<u8>>>>
    decreases lines.len(),
{
    if lines.len() == 0 {
        Some(Seq::empty())
    } else {
        let line = lines.last();
        match header_blocks(lines.drop_last()) {
            None => None,
            Some(blocks) => if line.len() == 0 {
                Some(blocks)
            } else if !is_folded(line) {
                Some(blocks.push(seq![line]))
            } else if blocks.len() == 0 {
                None
            } else {
                Some(blocks.drop_last().push(blocks.last().push(line)))
            },
        }
    }
}

/// The name of the header that a block holds: what stands before the first colon of its first
/// line, as text and without white space around it.
pub open spec fn block_name(block: Seq<Seq<u8>>) -> Result<Seq<char>, MimeError> {
    if block.len() == 0 {
        Err(MimeError::EmptyBlock)
    } else {
        match position_from(block[0], seq![58u8], 0) {
            None => Err(MimeError::MissingColon),
            Some(i) => if valid_utf8(block[0].take(i)) {
                Ok(text::trimmed(decode_utf8(block[0].take(i))))
            } else {
                Err(MimeError::NameNotUtf8)
            },
        }
    }
}

/// The headers that transport adds, and Bcc: they are not forwarded.
pub open spec fn is_stripped_name(name: Seq<char>) -> bool {
    let lower = text::lowercase(name);
    ||| lower == "arc-authentication-results"@
    ||| lower == "arc-message-signature"@
    ||| lower == "arc-seal"@
    ||| lower == "authentication-results"@
    ||| lower == "bcc"@
    ||| lower == "delivered-to"@
    ||| lower == "dkim-signature"@
    ||| lower == "received"@
    ||| lower == "return-path"@
    ||| lower == "x-gm-features"@
    ||| lower == "x-gm-message-state"@
    ||| lower == "x-gmail-original-message-id"@
    ||| lower == "x-received"@
}

/// The blocks that are forwarded, in their order; or the error of the first block whose name
/// cannot be read.
pub open spec fn kept_blocks(blocks: Seq<Seq<Seq<u8>>>) -> Result<Seq<Seq<Seq<u8>>>, MimeError>
    decreases blocks.len(),
{
    if blocks.len() == 0 {
        Ok(Seq::empty())
    } else {
        match kept_blocks(blocks.drop_last()) {
            Err(e) => Err(e),
            Ok(kept) => match block_name(blocks.last()) {
                Err(e) => Err(e),
                Ok(name) => if is_stripped_name(name) {
                    Ok(kept)
                } else {
                    Ok(kept.push(blocks.last()))
                },
            },
        }
    }
}

/// The lines, each with its CRLF.
pub open spec fn rendered_lines(lines: Seq<Seq<u8>>) -> Seq<u8>
    decreases lines.len(),
{
    if lines.len() == 0 {
        Seq::empty()
    } else {
        rendered_lines(lines.drop_last()) + lines.last() + crlf()
    }
}

/// The blocks, each line with its CRLF.
pub open spec fn rendered_blocks(blocks: Seq<Seq<Seq<u8>>>) -> Seq<u8>
    decreases blocks.len(),
{
    if blocks.len() == 0 {
        Seq::empty()
    } else {
        rendered_blocks(blocks.drop_last()) + rendered_lines(blocks.last())
    }
}

/// What is forwarded of `raw`: the kept headers with CRLF line ends, a blank line, and the body as
/// it came.
pub open spec fn sanitized_message(raw: Seq<u8>) -> Result<Seq<u8>, MimeError> {
    match message_parts(raw) {
        None => Err(MimeError::MissingSeparator),
        Some((headers, body)) => match header_blocks(header_lines(headers)) {
            None => Err(MimeError::FoldWithoutHeader),
            Some(blocks) => match kept_blocks(blocks) {
                Err(e) => Err(e),
                Ok(kept) => Ok(rendered_blocks(kept) + crlf() + body),
            },
        },
    }
}

/// The bytes of the lines that slices show.
pub open spec fn line_views(lines: Seq<&[u8]>) -> Seq<Seq<u8>> {
    lines.map_values(|line: &[u8]| line@)
}

/// The bytes of the lines of a block.
pub open spec fn block_view(block: Seq<Vec<u8>>) -> Seq<Seq<u8>> {
    block.map_values(|line: Vec<u8>| line@)
}

/// The bytes of the lines of some blocks.
pub open spec fn block_views(blocks: Seq<Vec<Vec<u8>>>) -> Seq<Seq<Seq<u8>>> {
    blocks.map_values(|block: Vec<Vec<u8>>| block_view(block@))
}

/// A line end that is found lies in `s`, at or after where the search began.
pub proof fn lemma_next_break_bounds(s: Seq<u8>, from: int)
    requires
        0 <= from,
    ensures
        next_break(s, from) matches Some(i) ==> from <= i < s.len() && breaks_at(s, i) && i
            + break_len(s, i) <= s.len(),
    decreases s.len() - from,
{
    if from < s.len() && !breaks_at(s, from) {
        lemma_next_break_bounds(s, from + 1);
    }
}

/// Where no line ends before `i`, the search finds the end at `i`, or nothing when `i` is the end.
proof fn lemma_next_break_is(s: Seq<u8>, from: int, i: int)
    requires
        0 <= from <= i <= s.len(),
        forall|j: int| from <= j < i ==> !breaks_at(s, j),
        i < s.len() ==> breaks_at(s, i),
    ensures
        next_break(s, from) == (if i < s.len() {
            Some(i)
        } else {
            None
        }),
    decreases i - from,
{
    if from < i {
        lemma_next_break_is(s, from + 1, i);
    }
}

/// Finds the first index at which `pattern` stands in `s`.
fn position(s: &[u8], pattern: &[u8]) -> (found: Option<usize>)
    requires
        pattern@.len() > 0,
    ensures
        found is Some == position_from(s@, pattern@, 0) is Some,
        found matches Some(i) ==> position_from(s@, pattern@, 0) == Some(i as int) && occurs_at(
            s@,
            pattern@,
            i as int,
        ),
{
    let mut i: usize = 0;
    while pattern.len() <= s.len() - i
        invariant
            i <= s@.len(),
            pattern@.len() > 0,
            position_from(s@, pattern@, 0) == position_from(s@, pattern@, i as int),
        decreases s@.len() - i,
    {
        let mut k: usize = 0;
        while k < pattern.len() && s[i + k] == pattern[k]
            invariant
                k <= pattern@.len(),
                i + pattern@.len() <= s@.len(),
                s@.len() == s.len(),
                forall|m: int| 0 <= m < k ==> s@[i + m] == pattern@[m],
            decreases pattern@.len() - k,
        {
            k += 1;
        }
        if k == pattern.len() {
            assert(s@.subrange(i as int, i + pattern@.len()) =~= pattern@);
            return Some(i);
        }
        i += 1;
    }
    None
}

/// Splits a raw message into its header section and its body.
pub fn split_headers_and_body(raw: &[u8]) -> (parts: Option<(&[u8], &[u8])>)
    ensures
        parts is Some == message_parts(raw@) is Some,
        parts matches Some((headers, body)) ==> message_parts(raw@) == Some((headers@, body@)),
{
    let blank_line: [u8; 4] = [13, 10, 13, 10];
    let bare_blank_line: [u8; 2] = [10, 10];
    assert(blank_line@ =~= crlf() + crlf());
    assert(raw@.len() == raw.len());
    if let Some(index) = position(raw, &blank_line) {
        return Some(
            (slice_subrange(raw, 0, index), slice_subrange(raw, index + 4, raw.len())),
        );
    }
    match position(raw, &bare_blank_line) {
        Some(index) => Some(
            (slice_subrange(raw, 0, index), slice_subrange(raw, index + 2, raw.len())),
        ),
        None => None,
    }
}

/// Splits a header section into lines.
pub fn split_header_lines(header_bytes: &[u8]) -> (lines: Vec<&[u8]>)
    ensures
        line_views(lines@) == header_lines(header_bytes@),
{
    let mut lines: Vec<&[u8]> = Vec::new();
    let mut start: usize = 0;
    let mut index: usize = 0;
    let ghost all = header_bytes@;
    assert(all.skip(0) =~= all);
    while index < header_bytes.len()
        invariant
            all == header_bytes@,
            start <= index <= all.len(),
            line_views(lines@) + header_lines(all.skip(start as int)) == header_lines(all),
            forall|j: int| start <= j < index ==> !breaks_at(all, j),
        decreases all.len() - index,
    {
        let byte = header_bytes[index];
        let width: usize = if byte == 10 {
            1
        } else if byte == 13 && index + 1 < header_bytes.len() && header_bytes[index + 1] == 10 {
            2
        } else {
            0
        };
        if width == 0 {
            index += 1;
        } else {
            let line = slice_subrange(header_bytes, start, index);
            let ghost before = lines@;
            lines.push(line);
            proof {
                let rest = all.skip(start as int);
                assert forall|j: int| 0 <= j < index - start implies !breaks_at(rest, j) by {
                    assert(!breaks_at(all, start + j));
                }
                lemma_next_break_is(rest, 0, index - start);
                assert(rest.take(index - start) =~= line@);
                assert(rest.skip(index - start + width) =~= all.skip(index + width));
                assert(line_views(before) + (seq![line@] + header_lines(all.skip(index + width)))
                    =~= line_views(lines@) + header_lines(all.skip(index + width)));
            }
            index += width;
            start = index;
        }
    }
    proof {
        let rest = all.skip(start as int);
        if start < all.len() {
            assert forall|j: int| 0 <= j < rest.len() implies !breaks_at(rest, j) by {
                assert(!breaks_at(all, start + j));
            }
            lemma_next_break_is(rest, 0, rest.len() as int);
        }
    }
    if start < header_bytes.len() {
        let line = slice_subrange(header_bytes, start, header_bytes.len());
        lines.push(line);
    }
    lines
}

/// A folded line without a header spoils every grouping of the lines it stands among.
proof fn lemma_header_blocks_none(lines: Seq<Seq<u8>>, i: int)
    requires
        0 <= i <= lines.len(),
        header_blocks(lines.take(i)) is None,
    ensures
        header_blocks(lines) is None,
    decreases lines.len() - i,
{
    if i < lines.len() {
        assert(lines.take(i + 1).drop_last() =~= lines.take(i));
        lemma_header_blocks_none(lines, i + 1);
    } else {
        assert(lines.take(i) =~= lines);
    }
}

/// The blocks that are complete and the one that is being read.
spec fn blocks_so_far(blocks: Seq<Vec<Vec<u8>>>, current: Option<Vec<Vec<u8>>>) -> Seq<
    Seq<Seq<u8>>,
> {
    match current {
        Some(block) => block_views(blocks).push(block_view(block@)),
        None => block_views(blocks),
    }
}

/// Groups the lines of a header section by header.
pub fn parse_header_blocks(header_bytes: &[u8]) -> (res: Result<Vec<Vec<Vec<u8>>>, MimeError>)
    ensures
        match header_blocks(header_lines(header_bytes@)) {
            Some(blocks) => res matches Ok(got) && block_views(got@) == blocks,
            None => res == Err::<Vec<Vec<Vec<u8>>>, MimeError>(MimeError::FoldWithoutHeader),
        },
{
    let mut blocks: Vec<Vec<Vec<u8>>> = Vec::new();
    let mut current: Option<Vec<Vec<u8>>> = None;
    let lines = split_header_lines(header_bytes);
    let ghost views = line_views(lines@);
    let mut i: usize = 0;
    while i < lines.len()
        invariant
            views == line_views(lines@),
            views == header_lines(header_bytes@),
            i <= lines@.len(),
            header_blocks(views.take(i as int)) == Some(blocks_so_far(blocks@, current)),
            current is None ==> blocks@.len() == 0,
        decreases lines@.len() - i,
    {
        let line = lines[i];
        let ghost so_far = blocks_so_far(blocks@, current);
        assert(views.take(i + 1).drop_last() =~= views.take(i as int));
        i += 1;
        if line.len() == 0 {
            continue;
        }
        if line[0] == 32 || line[0] == 9 {
            match current.take() {
                Some(mut block) => {
                    let ghost block_before = block@;
                    block.push(slice_to_vec(line));
                    assert(block_view(block@) =~= block_view(block_before).push(line@));
                    assert(so_far.drop_last().push(so_far.last().push(line@))
                        =~= block_views(blocks@).push(block_view(block@)));
                    current = Some(block);
                },
                None => {
                    proof {
                        lemma_header_blocks_none(views, i as int);
                    }
                    return Err(MimeError::FoldWithoutHeader);
                },
            }
            continue;
        }
        if let Some(block) = current.take() {
            blocks.push(block);
        }
        let mut block: Vec<Vec<u8>> = Vec::new();
        block.push(slice_to_vec(line));
        assert(block_view(block@) =~= seq![line@]);
        current = Some(block);
    }
    assert(views.take(i as int) =~= views);
    if let Some(block) = current.take() {
        blocks.push(block);
    }
    Ok(blocks)
}

/// Reads the name of the header that a block holds.
pub fn header_name(block: &[Vec<u8>]) -> (res: Result<&str, MimeError>)
    ensures
        match block_name(block_view(block@)) {
            Ok(name) => res matches Ok(got) && got@ == name,
            Err(e) => res == Err::<&str, MimeError>(e),
        },
{
    if block.len() == 0 {
        return Err(MimeError::EmptyBlock);
    }
    let first_line = block[0].as_slice();
    let colon: [u8; 1] = [58];
    assert(colon@ =~= seq![58u8]);
    match position(first_line, &colon) {
        None => Err(MimeError::MissingColon),
        Some(index) => {
            let name = slice_subrange(first_line, 0, index);
            match std::str::from_utf8(name) {
                Ok(text) => {
                    proof {
                        encode_utf8_decode_utf8(text@);
                    }
                    Ok(text.trim())
                },
                Err(_) => Err(MimeError::NameNotUtf8),
            }
        },
    }
}

/// Whether a header of this name is not forwarded.
pub fn should_strip_header(name: &str) -> (strip: bool)
    ensures
        strip == is_stripped_name(name@),
{
    let lower = name.to_ascii_lowercase();
    let lower = lower.as_str();
    text::same_text(lower, "arc-authentication-results")
        || text::same_text(lower, "arc-message-signature")
        || text::same_text(lower, "arc-seal")
        || text::same_text(lower, "authentication-results")
        || text::same_text(lower, "bcc")
        || text::same_text(lower, "delivered-to")
        || text::same_text(lower, "dkim-signature")
        || text::same_text(lower, "received")
        || text::same_text(lower, "return-path")
        || text::same_text(lower, "x-gm-features")
        || text::same_text(lower, "x-gm-message-state")
        || text::same_text(lower, "x-gmail-original-message-id")
        || text::same_text(lower, "x-received")
}

/// The first block whose name cannot be read decides the error, whatever follows it.
proof fn lemma_kept_blocks_err(blocks: Seq<Seq<Seq<u8>>>, i: int)
    requires
        0 <= i <= blocks.len(),
        kept_blocks(blocks.take(i)) is Err,
    ensures
        kept_blocks(blocks) == kept_blocks(blocks.take(i)),
    decreases blocks.len() - i,
{
    if i < blocks.len() {
        assert(blocks.take(i + 1).drop_last() =~= blocks.take(i));
        lemma_kept_blocks_err(blocks, i + 1);
    } else {
        assert(blocks.take(i) =~= blocks);
    }
}

/// Appends the lines of a block, each with its CRLF.
fn push_lines(out: &mut Vec<u8>, block: &Vec<Vec<u8>>)
    ensures
        final(out)@ == old(out)@ + rendered_lines(block_view(block@)),
{
    let ghost lines = block_view(block@);
    let ghost start = out@;
    let mut i: usize = 0;
    while i < block.len()
        invariant
            lines == block_view(block@),
            i <= block@.len(),
            out@ == start + rendered_lines(lines.take(i as int)),
        decreases block@.len() - i,
    {
        out.extend_from_slice(block[i].as_slice());
        out.push(13);
        out.push(10);
        proof {
            assert(lines.take(i + 1).drop_last() =~= lines.take(i as int));
        }
        i += 1;
    }
    assert(lines.take(i as int) =~= lines);
}

/// Takes the headers that transport adds, and Bcc, out of a raw message. The body stays as it is.
pub fn sanitize_raw_mime_for_cloudflare(raw: &[u8]) -> (res: Result<Vec<u8>, MimeError>)
    ensures
        match sanitized_message(raw@) {
            Ok(message) => res matches Ok(got) && got@ == message,
            Err(e) => res == Err::<Vec<u8>, MimeError>(e),
        },
{
    let (header_bytes, body_bytes) = match split_headers_and_body(raw) {
        Some(parts) => parts,
        None => return Err(MimeError::MissingSeparator),
    };
    let header_blocks = parse_header_blocks(header_bytes)?;
    let ghost views = block_views(header_blocks@);
    let mut sanitized: Vec<u8> = Vec::with_capacity(raw.len());
    let ghost mut kept: Seq<Seq<Seq<u8>>> = Seq::empty();
    let mut i: usize = 0;
    while i < header_blocks.len()
        invariant
            views == block_views(header_blocks@),
            sanitized_message(raw@) == (match kept_blocks(views) {
                Err(e) => Err(e),
                Ok(k) => Ok(rendered_blocks(k) + crlf() + body_bytes@),
            }),
            i <= header_blocks@.len(),
            kept_blocks(views.take(i as int)) == Ok::<Seq<Seq<Seq<u8>>>, MimeError>(kept),
            sanitized@ == rendered_blocks(kept),
        decreases header_blocks@.len() - i,
    {
        let block = &header_blocks[i];
        assert(views.take(i + 1).drop_last() =~= views.take(i as int));
        match header_name(block.as_slice()) {
            Ok(name) => {
                if !should_strip_header(name) {
                    proof {
                        assert(kept.push(block_view(block@)).drop_last() =~= kept);
                        kept = kept.push(block_view(block@));
                    }
                    push_lines(&mut sanitized, block);
                }
            },
            Err(e) => {
                proof {
                    lemma_kept_blocks_err(views, i + 1);
                }
                return Err(e);
            },
        }
        i += 1;
    }
    assert(views.take(i as int) =~= views);
    sanitized.push(13);
    sanitized.push(10);
    sanitized.extend_from_slice(body_bytes);
    Ok(sanitized)
}

/// A line of a header section: some bytes, none of them LF.
pub open spec fn is_header_line(line: Seq<u8>) -> bool {
    line.len() > 0 && !line.contains(10u8)
}

/// A header's own line and the folded lines after it.
pub open spec fn is_block(block: Seq<Seq<u8>>) -> bool {
    &&& block.len() > 0
    &&& !is_folded(block[0])
    &&& forall|k: int| 0 <= k < block.len() ==> is_header_line(#[trigger] block[k])
    &&& forall|k: int| 1 <= k < block.len() ==> is_folded(#[trigger] block[k])
}

/// The lines of some blocks, one after the other.
spec fn all_lines(blocks: Seq<Seq<Seq<u8>>>) -> Seq<Seq<u8>>
    decreases blocks.len(),
{
    if blocks.len() == 0 {
        Seq::empty()
    } else {
        all_lines(blocks.drop_last()) + blocks.last()
    }
}

proof fn lemma_header_lines_have_no_lf(s: Seq<u8>)
    ensures
        forall|k: int|
            0 <= k < header_lines(s).len() ==> !(#[trigger] header_lines(s)[k]).contains(10u8),
    decreases s.len(),
{
    if s.len() > 0 {
        lemma_next_break_bounds(s, 0);
        match next_break(s, 0) {
            None => {
                lemma_next_break_none(s, 0);
                assert forall|j: int| 0 <= j < s.len() implies s[j] != 10 by {
                    assert(!breaks_at(s, j));
                }
            },
            Some(i) => {
                lemma_next_break_first(s, 0);
                assert forall|j: int| 0 <= j < i implies s[j] != 10 by {
                    assert(!breaks_at(s, j));
                }
                let rest = s.skip(i + break_len(s, i));
                lemma_header_lines_have_no_lf(rest);
                assert forall|k: int| 0 <= k < header_lines(s).len() implies !(
                #[trigger] header_lines(s)[k]).contains(10u8) by {
                    if k > 0 {
                        assert(header_lines(s)[k] == header_lines(rest)[k - 1]);
                    }
                }
            },
        }
    }
}

proof fn lemma_next_break_none(s: Seq<u8>, from: int)
    requires
        0 <= from,
        next_break(s, from) is None,
    ensures
        forall|j: int| from <= j < s.len() ==> !breaks_at(s, j),
    decreases s.len() - from,
{
    if from < s.len() {
        lemma_next_break_none(s, from + 1);
    }
}

proof fn lemma_next_break_first(s: Seq<u8>, from: int)
    requires
        0 <= from,
        next_break(s, from) is Some,
    ensures
        forall|j: int| from <= j < next_break(s, from)->0 ==> !breaks_at(s, j),
    decreases s.len() - from,
{
    if !breaks_at(s, from) {
        lemma_next_break_first(s, from + 1);
    }
}

proof fn lemma_header_blocks_are_blocks(lines: Seq<Seq<u8>>)
    requires
        forall|k: int| 0 <= k < lines.len() ==> !(#[trigger] lines[k]).contains(10u8),
    ensures
        header_blocks(lines) matches Some(blocks) ==> forall|k: int|
            0 <= k < blocks.len() ==> is_block(#[trigger] blocks[k]),
    decreases lines.len(),
{
    if lines.len() > 0 {
        let init = lines.drop_last();
        lemma_header_blocks_are_blocks(init);
    }
}

proof fn lemma_kept_blocks_are_kept(blocks: Seq<Seq<Seq<u8>>>)
    requires
        forall|k: int| 0 <= k < blocks.len() ==> is_block(#[trigger] blocks[k]),
    ensures
        kept_blocks(blocks) matches Ok(kept) ==> forall|k: int|
            0 <= k < kept.len() ==> is_block(#[trigger] kept[k]) && is_kept(kept[k]),
    decreases blocks.len(),
{
    if blocks.len() > 0 {
        let init = blocks.drop_last();
        lemma_kept_blocks_are_kept(init);
    }
}

/// Whether a block has a name and is forwarded.
pub open spec fn is_kept(block: Seq<Seq<u8>>) -> bool {
    block_name(block) matches Ok(name) && !is_stripped_name(name)
}

proof fn lemma_kept_blocks_of_kept(kept: Seq<Seq<Seq<u8>>>)
    requires
        forall|k: int| 0 <= k < kept.len() ==> is_kept(#[trigger] kept[k]),
    ensures
        kept_blocks(kept) == Ok::<Seq<Seq<Seq<u8>>>, MimeError>(kept),
    decreases kept.len(),
{
    if kept.len() > 0 {
        let init = kept.drop_last();
        lemma_kept_blocks_of_kept(init);
        assert(init.push(kept.last()) =~= kept);
    } else {
        assert(kept =~= Seq::empty());
    }
}

proof fn lemma_rendered_lines_concat(a: Seq<Seq<u8>>, b: Seq<Seq<u8>>)
    ensures
        rendered_lines(a + b) == rendered_lines(a) + rendered_lines(b),
    decreases b.len(),
{
    if b.len() > 0 {
        assert((a + b).drop_last() =~= a + b.drop_last());
        lemma_rendered_lines_concat(a, b.drop_last());
    }
}

proof fn lemma_rendered_blocks_are_lines(blocks: Seq<Seq<Seq<u8>>>)
    ensures
        rendered_blocks(blocks) == rendered_lines(all_lines(blocks)),
    decreases blocks.len(),
{
    if blocks.len() > 0 {
        lemma_rendered_blocks_are_lines(blocks.drop_last());
        lemma_rendered_lines_concat(all_lines(blocks.drop_last()), blocks.last());
    }
}

proof fn lemma_all_lines_are_header_lines(blocks: Seq<Seq<Seq<u8>>>)
    requires
        forall|k: int| 0 <= k < blocks.len() ==> is_block(#[trigger] blocks[k]),
    ensures
        forall|k: int| 0 <= k < all_lines(blocks).len() ==> is_header_line(#[trigger] all_lines(blocks)[k]),
        blocks.len() > 0 ==> all_lines(blocks).len() > 0,
    decreases blocks.len(),
{
    if blocks.len() > 0 {
        let init = blocks.drop_last();
        assert forall|k: int| 0 <= k < init.len() implies is_block(#[trigger] init[k]) by {
            assert(init[k] == blocks[k]);
        }
        lemma_all_lines_are_header_lines(init);
        assert(is_block(blocks[blocks.len() - 1]));
        let head = all_lines(init);
        assert forall|k: int| 0 <= k < all_lines(blocks).len() implies is_header_line(
            #[trigger] all_lines(blocks)[k],
        ) by {
            if k < head.len() {
                assert(all_lines(blocks)[k] == head[k]);
            } else {
                assert(all_lines(blocks)[k] == blocks.last()[k - head.len()]);
            }
        }
    }
}

/// Rendered header lines hold no blank line.
proof fn lemma_rendered_lines_have_no_blank(lines: Seq<Seq<u8>>)
    requires
        forall|k: int| 0 <= k < lines.len() ==> is_header_line(#[trigger] lines[k]),
    ensures
        lines.len() > 0 ==> ({
            let r = rendered_lines(lines);
            r.len() >= 3 && r[r.len() - 2] == 13 && r[r.len() - 1] == 10
        }),
        forall|k: int|
            0 <= k && k + 2 < rendered_lines(lines).len() && #[trigger] rendered_lines(lines)[k] == 10
                ==> !(rendered_lines(lines)[k + 1] == 13 && rendered_lines(lines)[k + 2] == 10),
    decreases lines.len(),
{
    if lines.len() > 0 {
        let init = lines.drop_last();
        let line = lines.last();
        assert forall|k: int| 0 <= k < init.len() implies is_header_line(#[trigger] init[k]) by {
            assert(init[k] == lines[k]);
        }
        lemma_rendered_lines_have_no_blank(init);
        let head = rendered_lines(init);
        let r = rendered_lines(lines);
        assert(is_header_line(lines[lines.len() - 1]));
        assert forall|k: int| 0 <= k && k + 2 < r.len() && #[trigger] r[k] == 10 implies !(r[k + 1]
            == 13 && r[k + 2] == 10) by {
            if k + 2 < head.len() {
                assert(r[k] == head[k] && r[k + 1] == head[k + 1] && r[k + 2] == head[k + 2]);
            } else if k < head.len() {
                assert(r[k] == head[k]);
                assert(k == head.len() - 1);
                assert(r[k + 1] == line[0]);
                if line.len() > 1 {
                    assert(r[k + 2] == line[1]);
                    assert(line.contains(line[1]));
                }
            } else if k < head.len() + line.len() {
                assert(r[k] == line[k - head.len()]);
                assert(line.contains(line[k - head.len()]));
            }
        }
    }
}

proof fn lemma_position_is(s: Seq<u8>, pattern: Seq<u8>, from: int, i: int)
    requires
        0 <= from <= i,
        pattern.len() > 0,
        occurs_at(s, pattern, i),
        forall|j: int| from <= j < i ==> !occurs_at(s, pattern, j),
    ensures
        position_from(s, pattern, from) == Some(i),
    decreases i - from,
{
    if from < i {
        lemma_position_is(s, pattern, from + 1, i);
    }
}

/// The lines of rendered header lines, the last line end left out, are those lines.
proof fn lemma_header_lines_of_rendered(lines: Seq<Seq<u8>>)
    requires
        lines.len() > 0,
        forall|k: int| 0 <= k < lines.len() ==> is_header_line(#[trigger] lines[k]),
    ensures
        header_lines(rendered_lines(lines).take(rendered_lines(lines).len() - 2)) == lines,
    decreases lines.len(),
{
    let first = lines[0];
    let rest = lines.drop_first();
    assert(is_header_line(lines[0]));
    assert forall|k: int| 0 <= k < rest.len() implies is_header_line(#[trigger] rest[k]) by {
        assert(rest[k] == lines[k + 1]);
    }
    assert(lines =~= seq![first] + rest);
    lemma_rendered_lines_concat(seq![first], rest);
    assert(seq![first].drop_last() =~= Seq::<Seq<u8>>::empty());
    reveal_with_fuel(rendered_lines, 2);
    assert(rendered_lines(seq![first]) =~= first + crlf());
    lemma_rendered_lines_have_no_blank(lines);
    lemma_rendered_lines_have_no_blank(rest);
    let r = rendered_lines(lines);
    let s = r.take(r.len() - 2);
    assert forall|j: int| 0 <= j < first.len() implies !breaks_at(s, j) by {
        assert(s[j] == first[j]);
        assert(first.contains(first[j]));
        if j + 1 < first.len() {
            assert(s[j + 1] == first[j + 1]);
            assert(first.contains(first[j + 1]));
        }
    }
    lemma_next_break_is(s, 0, first.len() as int);
    if rest.len() == 0 {
        assert(s =~= first);
        assert(lines =~= seq![first]);
    } else {
        let tail = rendered_lines(rest);
        assert(s.take(first.len() as int) =~= first);
        assert(s.skip(first.len() as int + 2) =~= tail.take(tail.len() - 2));
        lemma_header_lines_of_rendered(rest);
    }
}

proof fn lemma_header_blocks_of_all_lines(blocks: Seq<Seq<Seq<u8>>>)
    requires
        forall|k: int| 0 <= k < blocks.len() ==> is_block(#[trigger] blocks[k]),
    ensures
        header_blocks(all_lines(blocks)) == Some(blocks),
    decreases blocks.len(),
{
    if blocks.len() > 0 {
        let init = blocks.drop_last();
        let block = blocks.last();
        lemma_header_blocks_of_all_lines(init);
        lemma_header_blocks_append(all_lines(init), init, block, block.len() as int);
        assert(block.take(block.len() as int) =~= block);
    }
}

proof fn lemma_header_blocks_append(
    lines: Seq<Seq<u8>>,
    blocks: Seq<Seq<Seq<u8>>>,
    block: Seq<Seq<u8>>,
    n: int,
)
    requires
        header_blocks(lines) == Some(blocks),
        is_block(block),
        1 <= n <= block.len(),
    ensures
        header_blocks(lines + block.take(n)) == Some(blocks.push(block.take(n))),
    decreases n,
{
    let so_far = lines + block.take(n);
    if n == 1 {
        assert(so_far.drop_last() =~= lines);
        assert(block.take(1) =~= seq![block[0]]);
    } else {
        assert(so_far.drop_last() =~= lines + block.take(n - 1));
        lemma_header_blocks_append(lines, blocks, block, n - 1);
        assert(block.take(n - 1).push(block[n - 1]) =~= block.take(n));
    }
}

/// The header section of `raw`, where it has one.
pub open spec fn header_section(raw: Seq<u8>) -> Seq<u8> {
    match message_parts(raw) {
        Some((headers, _)) => headers,
        None => Seq::empty(),
    }
}

/// The body of `raw`, where it has a header section.
pub open spec fn message_body(raw: Seq<u8>) -> Seq<u8> {
    match message_parts(raw) {
        Some((_, body)) => body,
        None => Seq::empty(),
    }
}

/// The headers of `raw`, where they can be grouped.
pub open spec fn message_blocks(raw: Seq<u8>) -> Seq<Seq<Seq<u8>>> {
    header_blocks(header_lines(header_section(raw)))->0
}

/// The headers that are forwarded of `raw`, where it can be forwarded.
pub open spec fn forwarded_headers(raw: Seq<u8>) -> Seq<Seq<Seq<u8>>> {
    kept_blocks(message_blocks(raw))->Ok_0
}

proof fn lemma_kept_blocks_are_filtered(blocks: Seq<Seq<Seq<u8>>>)
    requires
        kept_blocks(blocks) is Ok,
    ensures
        kept_blocks(blocks)->Ok_0 == blocks.filter(|block: Seq<Seq<u8>>| is_kept(block)),
    decreases blocks.len(),
{
    reveal(Seq::filter);
    if blocks.len() > 0 {
        lemma_kept_blocks_are_filtered(blocks.drop_last());
    }
}

/// All that is taken out of a message are the headers that are to be stripped: the others are
/// forwarded, each with its folded lines and in their order.
pub proof fn law_other_headers_are_forwarded(raw: Seq<u8>)
    requires
        sanitized_message(raw) is Ok,
    ensures
        forwarded_headers(raw) == message_blocks(raw).filter(
            |block: Seq<Seq<u8>>| is_kept(block),
        ),
        sanitized_message(raw)->Ok_0 == rendered_blocks(forwarded_headers(raw)) + crlf()
            + message_body(raw),
{
    lemma_kept_blocks_are_filtered(message_blocks(raw));
}

/// No header that is to be stripped is forwarded: each forwarded header has a name, and none of
/// the stripped ones.
pub proof fn law_no_stripped_header_is_forwarded(raw: Seq<u8>)
    requires
        sanitized_message(raw) is Ok,
    ensures
        forall|k: int|
            0 <= k < forwarded_headers(raw).len() ==> is_kept(#[trigger] forwarded_headers(raw)[k]),
{
    let lines = header_lines(header_section(raw));
    lemma_header_lines_have_no_lf(header_section(raw));
    lemma_header_blocks_are_blocks(lines);
    lemma_kept_blocks_are_kept(header_blocks(lines)->0);
}

/// A reader of the forwarded message finds in it the forwarded headers, each with its folded
/// lines, and the body as it came. (A message none of whose headers is forwarded has no header
/// section to find.)
pub proof fn law_forwarded_message_reads_back(raw: Seq<u8>)
    requires
        sanitized_message(raw) is Ok,
        forwarded_headers(raw).len() > 0,
    ensures
        message_parts(sanitized_message(raw)->Ok_0) matches Some((headers, body)) && body
            == message_body(raw) && header_blocks(header_lines(headers)) == Some(
            forwarded_headers(raw),
        ),
{
    let headers = header_section(raw);
    let body = message_body(raw);
    let kept = forwarded_headers(raw);
    let lines = header_lines(headers);
    lemma_header_lines_have_no_lf(headers);
    lemma_header_blocks_are_blocks(lines);
    lemma_kept_blocks_are_kept(header_blocks(lines)->0);
    lemma_message_of_blocks(kept, body);
}

/// Sanitizing a forwarded message changes nothing more.
pub proof fn law_sanitizing_again_changes_nothing(raw: Seq<u8>)
    requires
        sanitized_message(raw) is Ok,
        forwarded_headers(raw).len() > 0,
    ensures
        sanitized_message(sanitized_message(raw)->Ok_0) == sanitized_message(raw),
{
    law_forwarded_message_reads_back(raw);
    law_no_stripped_header_is_forwarded(raw);
    lemma_kept_blocks_of_kept(forwarded_headers(raw));
}

/// The headers that are not forwarded are those of the names listed here, in whatever case, and no
/// others.
pub proof fn law_stripped_headers_are_the_listed_ones(name: Seq<char>)
    ensures
        is_stripped_name(name) <==> seq![
            "arc-authentication-results"@,
            "arc-message-signature"@,
            "arc-seal"@,
            "authentication-results"@,
            "bcc"@,
            "delivered-to"@,
            "dkim-signature"@,
            "received"@,
            "return-path"@,
            "x-gm-features"@,
            "x-gm-message-state"@,
            "x-gmail-original-message-id"@,
            "x-received"@,
        ].contains(text::lowercase(name)),
{
    let listed = seq![
        "arc-authentication-results"@,
        "arc-message-signature"@,
        "arc-seal"@,
        "authentication-results"@,
        "bcc"@,
        "delivered-to"@,
        "dkim-signature"@,
        "received"@,
        "return-path"@,
        "x-gm-features"@,
        "x-gm-message-state"@,
        "x-gmail-original-message-id"@,
        "x-received"@,
    ];
    let lower = text::lowercase(name);
    assert(listed[0] == "arc-authentication-results"@ && listed[1] == "arc-message-signature"@
        && listed[2] == "arc-seal"@ && listed[3] == "authentication-results"@ && listed[4] == "bcc"@
        && listed[5] == "delivered-to"@ && listed[6] == "dkim-signature"@ && listed[7]
        == "received"@ && listed[8] == "return-path"@ && listed[9] == "x-gm-features"@ && listed[10]
        == "x-gm-message-state"@ && listed[11] == "x-gmail-original-message-id"@ && listed[12]
        == "x-received"@);
    if listed.contains(lower) {
        let k = choose|k: int| 0 <= k < listed.len() && listed[k] == lower;
        assert(listed[k] == lower);
    }
}

/// A message is parted at its first blank line in CRLF form, which belongs to neither part.
pub proof fn law_messages_part_at_the_first_blank_line(
    raw: Seq<u8>,
    headers: Seq<u8>,
    body: Seq<u8>,
)
    requires
        raw == headers + seq![13u8, 10u8, 13u8, 10u8] + body,
        forall|j: int|
            0 <= j < headers.len() ==> #[trigger] raw.subrange(j, j + 4) != seq![
                13u8,
                10u8,
                13u8,
                10u8,
            ],
    ensures
        message_parts(raw) == Some((headers, body)),
{
    let blank = seq![13u8, 10u8, 13u8, 10u8];
    let cut = headers.len() as int;
    assert(crlf() + crlf() =~= blank);
    assert(raw.subrange(cut, cut + 4) =~= blank);
    assert forall|j: int| 0 <= j < cut implies !occurs_at(raw, blank, j) by {}
    lemma_position_is(raw, blank, 0, cut);
    assert(raw.take(cut) =~= headers);
    assert(raw.skip(cut + 4) =~= body);
}

/// A message without a blank line in CRLF form is parted at its first one in LF form.
pub proof fn law_bare_blank_lines_part_a_message_too(
    raw: Seq<u8>,
    headers: Seq<u8>,
    body: Seq<u8>,
)
    requires
        raw == headers + seq![10u8, 10u8] + body,
        forall|j: int|
            0 <= j && j + 4 <= raw.len() ==> #[trigger] raw.subrange(j, j + 4) != seq![
                13u8,
                10u8,
                13u8,
                10u8,
            ],
        forall|j: int|
            0 <= j < headers.len() ==> #[trigger] raw.subrange(j, j + 2) != seq![10u8, 10u8],
    ensures
        message_parts(raw) == Some((headers, body)),
{
    let blank = seq![10u8, 10u8];
    let cut = headers.len() as int;
    assert(crlf() + crlf() =~= seq![13u8, 10u8, 13u8, 10u8]);
    assert forall|j: int| 0 <= j < raw.len() implies !occurs_at(raw, crlf() + crlf(), j) by {}
    lemma_position_none(raw, crlf() + crlf(), 0);
    assert(raw.subrange(cut, cut + 2) =~= blank);
    assert forall|j: int| 0 <= j < cut implies !occurs_at(raw, blank, j) by {}
    lemma_position_is(raw, blank, 0, cut);
    assert(raw.take(cut) =~= headers);
    assert(raw.skip(cut + 2) =~= body);
}

proof fn lemma_position_none(s: Seq<u8>, pattern: Seq<u8>, from: int)
    requires
        0 <= from,
        forall|j: int| from <= j < s.len() ==> !occurs_at(s, pattern, j),
    ensures
        position_from(s, pattern, from) is None,
    decreases s.len() - from,
{
    if from < s.len() {
        lemma_position_none(s, pattern, from + 1);
    }
}

/// A message without any blank line cannot be forwarded.
pub proof fn law_messages_need_a_blank_line(raw: Seq<u8>)
    requires
        forall|j: int|
            0 <= j && j + 4 <= raw.len() ==> #[trigger] raw.subrange(j, j + 4) != seq![
                13u8,
                10u8,
                13u8,
                10u8,
            ],
        forall|j: int|
            0 <= j && j + 2 <= raw.len() ==> #[trigger] raw.subrange(j, j + 2) != seq![10u8, 10u8],
    ensures
        message_parts(raw) is None,
        sanitized_message(raw) == Err::<Seq<u8>, MimeError>(MimeError::MissingSeparator),
{
    assert(crlf() + crlf() =~= seq![13u8, 10u8, 13u8, 10u8]);
    assert forall|j: int| 0 <= j < raw.len() implies !occurs_at(raw, crlf() + crlf(), j) by {}
    lemma_position_none(raw, crlf() + crlf(), 0);
    assert forall|j: int| 0 <= j < raw.len() implies !occurs_at(raw, seq![10u8, 10u8], j) by {}
    lemma_position_none(raw, seq![10u8, 10u8], 0);
}

/// A header section is read line by line: a line ends with LF or CRLF, which is not part of it, and
/// what is left at the end is a line too, unless it is empty.
pub proof fn law_lines_end_with_lf_or_crlf(line: Seq<u8>, rest: Seq<u8>)
    requires
        !line.contains(10u8),
    ensures
        header_lines(line + seq![13u8, 10u8] + rest) == seq![line] + header_lines(rest),
        line.len() == 0 || line.last() != 13 ==> header_lines(line + seq![10u8] + rest) == seq![line]
            + header_lines(rest),
        line.len() > 0 ==> header_lines(line) == seq![line],
        header_lines(Seq::empty()) == Seq::<Seq<u8>>::empty(),
{
    let n = line.len() as int;
    assert forall|j: int| 0 <= j < n implies line[j] != 10 by {
        assert(line.contains(line[j]));
    }
    let wire = line + seq![13u8, 10u8] + rest;
    assert forall|j: int| 0 <= j < n implies !breaks_at(wire, j) by {
        assert(wire[j] == line[j]);
        if j + 1 < n {
            assert(wire[j + 1] == line[j + 1]);
        }
    }
    assert(breaks_at(wire, n));
    lemma_next_break_is(wire, 0, n);
    assert(wire.take(n) =~= line);
    assert(wire.skip(n + 2) =~= rest);
    if n == 0 || line.last() != 13 {
        let bare = line + seq![10u8] + rest;
        assert forall|j: int| 0 <= j < n implies !breaks_at(bare, j) by {
            assert(bare[j] == line[j]);
            if j + 1 < n {
                assert(bare[j + 1] == line[j + 1]);
            }
        }
        assert(breaks_at(bare, n));
        lemma_next_break_is(bare, 0, n);
        assert(bare.take(n) =~= line);
        assert(bare.skip(n + 1) =~= rest);
    }
    if n > 0 {
        assert forall|j: int| 0 <= j < n implies !breaks_at(line, j) by {}
        lemma_next_break_is(line, 0, n);
    }
}

/// Each further line of a header section belongs where its first byte says: an empty one nowhere,
/// one that starts with a blank or a tabulator to the header before it, and any other starts a
/// header of its own. A line that needs a header before it and has none spoils the section.
pub proof fn law_lines_are_grouped_by_their_first_byte(lines: Seq<Seq<u8>>, line: Seq<u8>)
    ensures
        header_blocks(Seq::empty()) == Some(Seq::<Seq<Seq<u8>>>::empty()),
        header_blocks(lines) is None ==> header_blocks(lines.push(line)) is None,
        header_blocks(lines) matches Some(blocks) ==> header_blocks(lines.push(line)) == (if line.len()
            == 0 {
            Some(blocks)
        } else if line[0] != 32 && line[0] != 9 {
            Some(blocks.push(seq![line]))
        } else if blocks.len() > 0 {
            Some(blocks.update(blocks.len() - 1, blocks.last().push(line)))
        } else {
            None
        }),
        is_folded(line) <==> line.len() > 0 && (line[0] == 32 || line[0] == 9),
{
    assert(lines.push(line).drop_last() =~= lines);
    if let Some(blocks) = header_blocks(lines) {
        if blocks.len() > 0 {
            assert(blocks.drop_last().push(blocks.last().push(line)) =~= blocks.update(
                blocks.len() - 1,
                blocks.last().push(line),
            ));
        }
    }
}

/// A header is named by the text before the first colon of its own line, without white space around
/// it; neither what follows the colon nor the folded lines matter.
pub proof fn law_headers_are_named_before_the_colon(
    name: Seq<char>,
    value: Seq<u8>,
    folded: Seq<Seq<u8>>,
)
    requires
        !encode_utf8(name).contains(58u8),
    ensures
        block_name(seq![encode_utf8(name) + seq![58u8] + value] + folded) == Ok::<
            Seq<char>,
            MimeError,
        >(text::trimmed(name)),
{
    let bytes = encode_utf8(name);
    lemma_name_stands_before_colon(bytes, value, folded);
    encode_utf8_valid_utf8(name);
    encode_utf8_decode_utf8(name);
}

proof fn lemma_name_stands_before_colon(name: Seq<u8>, value: Seq<u8>, folded: Seq<Seq<u8>>)
    requires
        !name.contains(58u8),
    ensures
        ({
            let line = name + seq![58u8] + value;
            let block = seq![line] + folded;
            &&& block[0] == line
            &&& position_from(line, seq![58u8], 0) == Some(name.len() as int)
            &&& line.take(name.len() as int) == name
        }),
{
    let line = name + seq![58u8] + value;
    let n = name.len() as int;
    assert(line.subrange(n, n + 1) =~= seq![58u8]);
    assert forall|j: int| 0 <= j < n implies !occurs_at(line, seq![58u8], j) by {
        assert(line.subrange(j, j + 1)[0] == name[j]);
        assert(name.contains(name[j]));
    }
    lemma_position_is(line, seq![58u8], 0, n);
    assert(line.take(n) =~= name);
    assert((seq![line] + folded)[0] == line);
}

/// A header has no name where its own line has no colon, or where what stands before the first one
/// is not UTF-8.
pub proof fn law_headers_without_a_name(name: Seq<u8>, value: Seq<u8>, folded: Seq<Seq<u8>>)
    requires
        !name.contains(58u8),
    ensures
        block_name(seq![name] + folded) == Err::<Seq<char>, MimeError>(MimeError::MissingColon),
        !valid_utf8(name) ==> block_name(seq![name + seq![58u8] + value] + folded) == Err::<
            Seq<char>,
            MimeError,
        >(MimeError::NameNotUtf8),
        block_name(Seq::empty()) == Err::<Seq<char>, MimeError>(MimeError::EmptyBlock),
{
    lemma_name_stands_before_colon(name, value, folded);
    assert forall|j: int| 0 <= j < name.len() implies !occurs_at(name, seq![58u8], j) by {
        if occurs_at(name, seq![58u8], j) {
            assert(name.subrange(j, j + 1)[0] == name[j]);
            assert(name.contains(name[j]));
        }
    }
    lemma_position_none(name, seq![58u8], 0);
    assert((seq![name] + folded)[0] == name);
}

/// Forwarded lines get CRLF, one after the other, header by header.
pub proof fn law_lines_are_forwarded_with_crlf(
    lines: Seq<Seq<u8>>,
    line: Seq<u8>,
    blocks: Seq<Seq<Seq<u8>>>,
)
    ensures
        rendered_lines(Seq::empty()) == Seq::<u8>::empty(),
        rendered_lines(lines.push(line)) == rendered_lines(lines) + line + seq![13u8, 10u8],
        rendered_blocks(Seq::empty()) == Seq::<u8>::empty(),
        rendered_blocks(blocks.push(lines)) == rendered_blocks(blocks) + rendered_lines(lines),
{
    assert(lines.push(line).drop_last() =~= lines);
    assert(blocks.push(lines).drop_last() =~= blocks);
}

/// Whether a header has a name, and one other than the listed ones, so that it is forwarded.
pub proof fn law_forwarded_headers_are_the_others(block: Seq<Seq<u8>>)
    ensures
        is_kept(block) <==> block_name(block) is Ok && !is_stripped_name(block_name(block)->Ok_0),
{
}

/// Of headers that all have names, those that are to be stripped are left out and all others are
/// forwarded, in their order.
pub proof fn law_unlisted_headers_are_all_forwarded(blocks: Seq<Seq<Seq<u8>>>)
    requires
        forall|k: int| 0 <= k < blocks.len() ==> block_name(#[trigger] blocks[k]) is Ok,
    ensures
        kept_blocks(blocks) == Ok::<Seq<Seq<Seq<u8>>>, MimeError>(
            blocks.filter(
                |block: Seq<Seq<u8>>| !is_stripped_name(block_name(block)->Ok_0),
            ),
        ),
        forall|k: int|
            0 <= k < blocks.len() && !is_stripped_name(block_name(#[trigger] blocks[k])->Ok_0)
                ==> kept_blocks(blocks)->Ok_0.contains(blocks[k]),
    decreases blocks.len(),
{
    reveal(Seq::filter);
    if blocks.len() > 0 {
        let init = blocks.drop_last();
        law_unlisted_headers_are_all_forwarded(init);
        let kept = kept_blocks(blocks)->Ok_0;
        let kept_before = kept_blocks(init)->Ok_0;
        let unlisted = |block: Seq<Seq<u8>>| !is_stripped_name(block_name(block)->Ok_0);
        assert(kept_before == init.filter(unlisted));
        assert(block_name(blocks[blocks.len() - 1]) is Ok);
        assert forall|k: int|
            0 <= k < blocks.len() && !is_stripped_name(
                block_name(#[trigger] blocks[k])->Ok_0,
            ) implies kept.contains(blocks[k]) by {
            if k < init.len() {
                assert(init[k] == blocks[k]);
                let j = choose|j: int| 0 <= j < kept_before.len() && kept_before[j] == blocks[k];
                assert(kept[j] == blocks[k]);
            } else {
                assert(kept[kept.len() - 1] == blocks[k]);
            }
        }
    } else {
        assert(blocks =~= Seq::empty());
    }
}

/// The first header without a name decides what is wrong, whatever stands around it.
pub proof fn law_the_first_unnamed_header_decides(
    before: Seq<Seq<Seq<u8>>>,
    block: Seq<Seq<u8>>,
    after: Seq<Seq<Seq<u8>>>,
    error: MimeError,
)
    requires
        forall|k: int| 0 <= k < before.len() ==> block_name(#[trigger] before[k]) is Ok,
        block_name(block) == Err::<Seq<char>, MimeError>(error),
    ensures
        kept_blocks(before.push(block) + after) == Err::<Seq<Seq<Seq<u8>>>, MimeError>(error),
{
    law_unlisted_headers_are_all_forwarded(before);
    let upto = before.push(block);
    let all = upto + after;
    assert(upto.drop_last() =~= before);
    assert(all.take(upto.len() as int) =~= upto);
    lemma_kept_blocks_err(all, upto.len() as int);
}

/// A message that is put together from headers and a body is forwarded with the same headers, but
/// for those that are to be stripped, and with the same body.
pub proof fn law_messages_are_forwarded_without_the_stripped_headers(
    blocks: Seq<Seq<Seq<u8>>>,
    body: Seq<u8>,
)
    requires
        blocks.len() > 0,
        forall|k: int|
            0 <= k < blocks.len() ==> is_block(#[trigger] blocks[k]) && block_name(
                blocks[k],
            ) is Ok,
    ensures
        sanitized_message(rendered_blocks(blocks) + seq![13u8, 10u8] + body) == Ok::<
            Seq<u8>,
            MimeError,
        >(
            rendered_blocks(
                blocks.filter(
                    |block: Seq<Seq<u8>>| !is_stripped_name(block_name(block)->Ok_0),
                ),
            ) + seq![13u8, 10u8] + body,
        ),
{
    lemma_message_of_blocks(blocks, body);
    law_unlisted_headers_are_all_forwarded(blocks);
    assert(crlf() =~= seq![13u8, 10u8]);
}

/// A message none of whose headers is to be stripped is forwarded unchanged.
pub proof fn law_messages_without_stripped_headers_are_unchanged(
    blocks: Seq<Seq<Seq<u8>>>,
    body: Seq<u8>,
)
    requires
        blocks.len() > 0,
        forall|k: int|
            0 <= k < blocks.len() ==> is_block(#[trigger] blocks[k]) && is_kept(blocks[k]),
    ensures
        sanitized_message(rendered_blocks(blocks) + seq![13u8, 10u8] + body) == Ok::<
            Seq<u8>,
            MimeError,
        >(rendered_blocks(blocks) + seq![13u8, 10u8] + body),
{
    lemma_message_of_blocks(blocks, body);
    lemma_kept_blocks_of_kept(blocks);
    assert(crlf() =~= seq![13u8, 10u8]);
}

/// The bytes of a header that is not to be stripped stand in the forwarded message, every line of
/// it.
pub proof fn law_unlisted_headers_stand_in_the_message(raw: Seq<u8>, k: int)
    requires
        sanitized_message(raw) is Ok,
        0 <= k < message_blocks(raw).len(),
        !is_stripped_name(block_name(message_blocks(raw)[k])->Ok_0),
    ensures
        exists|i: int|
            occurs_at(
                sanitized_message(raw)->Ok_0,
                rendered_lines(message_blocks(raw)[k]),
                i,
            ),
{
    let blocks = message_blocks(raw);
    lemma_kept_blocks_have_names(blocks);
    law_unlisted_headers_are_all_forwarded(blocks);
    let kept = forwarded_headers(raw);
    let j = choose|j: int| 0 <= j < kept.len() && kept[j] == blocks[k];
    let i = lemma_rendered_block_occurs(kept, j);
    let rendered = rendered_blocks(kept);
    let message = sanitized_message(raw)->Ok_0;
    let width = rendered_lines(blocks[k]).len();
    assert(message.subrange(i, i + width) =~= rendered.subrange(i, i + width));
    assert(occurs_at(message, rendered_lines(blocks[k]), i));
}

proof fn lemma_kept_blocks_have_names(blocks: Seq<Seq<Seq<u8>>>)
    requires
        kept_blocks(blocks) is Ok,
    ensures
        forall|k: int| 0 <= k < blocks.len() ==> block_name(#[trigger] blocks[k]) is Ok,
    decreases blocks.len(),
{
    if blocks.len() > 0 {
        lemma_kept_blocks_have_names(blocks.drop_last());
        assert forall|k: int| 0 <= k < blocks.len() implies block_name(#[trigger] blocks[k]) is Ok by {
            if k < blocks.len() - 1 {
                assert(blocks.drop_last()[k] == blocks[k]);
            }
        }
    }
}

proof fn lemma_rendered_block_occurs(blocks: Seq<Seq<Seq<u8>>>, j: int) -> (i: int)
    requires
        0 <= j < blocks.len(),
    ensures
        occurs_at(rendered_blocks(blocks), rendered_lines(blocks[j]), i),
    decreases blocks.len(),
{
    let init = blocks.drop_last();
    let head = rendered_blocks(init);
    let all = rendered_blocks(blocks);
    let wanted = rendered_lines(blocks[j]);
    if j == blocks.len() - 1 {
        let i = head.len() as int;
        assert(all.subrange(i, i + wanted.len()) =~= wanted);
        i
    } else {
        let i = lemma_rendered_block_occurs(init, j);
        assert(all.subrange(i, i + wanted.len()) =~= head.subrange(i, i + wanted.len()));
        i
    }
}

/// Blocks, written down with a blank line and a body after them, are read as those blocks and that
/// body.
proof fn lemma_message_of_blocks(blocks: Seq<Seq<Seq<u8>>>, body: Seq<u8>)
    requires
        blocks.len() > 0,
        forall|k: int| 0 <= k < blocks.len() ==> is_block(#[trigger] blocks[k]),
    ensures
        message_parts(rendered_blocks(blocks) + crlf() + body) matches Some((headers, got)) && got
            == body && header_blocks(header_lines(headers)) == Some(blocks),
{
    let flat = all_lines(blocks);
    lemma_rendered_blocks_are_lines(blocks);
    lemma_all_lines_are_header_lines(blocks);
    lemma_rendered_lines_have_no_blank(flat);
    let r = rendered_lines(flat);
    let m = r + crlf() + body;
    let blank = crlf() + crlf();
    let cut = r.len() - 2;
    assert(m.subrange(cut, cut + 4) =~= blank);
    assert forall|j: int| 0 <= j < cut implies !occurs_at(m, blank, j) by {
        if occurs_at(m, blank, j) {
            let w = m.subrange(j, j + 4);
            assert(w[1] == 10 && w[2] == 13 && w[3] == 10);
        }
    }
    lemma_position_is(m, blank, 0, cut);
    assert(m.take(cut) =~= r.take(cut));
    assert(m.skip(cut + 4) =~= body);
    lemma_header_lines_of_rendered(flat);
    lemma_header_blocks_of_all_lines(blocks);
}

/// Whatever the line ends of a message, what is forwarded of it is its kept headers with CRLF, a
/// blank line and its body; a header section that cannot be grouped and a header without a name
/// stand in the way.
pub proof fn law_forwarded_messages_are_put_together(
    raw: Seq<u8>,
    headers: Seq<u8>,
    body: Seq<u8>,
    blocks: Seq<Seq<Seq<u8>>>,
)
    requires
        message_parts(raw) == Some((headers, body)),
    ensures
        header_blocks(header_lines(headers)) is None ==> sanitized_message(raw) == Err::<
            Seq<u8>,
            MimeError,
        >(MimeError::FoldWithoutHeader),
        header_blocks(header_lines(headers)) == Some(blocks) ==> match kept_blocks(blocks) {
            Ok(kept) => sanitized_message(raw) == Ok::<Seq<u8>, MimeError>(
                rendered_blocks(kept) + seq![13u8, 10u8] + body,
            ),
            Err(e) => sanitized_message(raw) == Err::<Seq<u8>, MimeError>(e),
        },
{
    assert(crlf() =~= seq![13u8, 10u8]);
}

/// Lines and headers stand for their bytes, every line of every header.
pub proof fn law_lines_stand_for_their_bytes(
    lines: Seq<&[u8]>,
    block: Seq<Vec<u8>>,
    blocks: Seq<Vec<Vec<u8>>>,
    k: int,
)
    ensures
        line_views(lines).len() == lines.len(),
        0 <= k < lines.len() ==> line_views(lines)[k] == lines[k]@,
        block_view(block).len() == block.len(),
        0 <= k < block.len() ==> block_view(block)[k] == block[k]@,
        block_views(blocks).len() == blocks.len(),
        0 <= k < blocks.len() ==> block_views(blocks)[k] == block_view(blocks[k]@),
{
}

} // verus!
