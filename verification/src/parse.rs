//! Monitor record parser: turns the compositor's textual monitor listing
//! into structured records. Blocks are separated by a blank line; a block
//! whose first line is empty ends the list; any malformed block fails the
//! whole parse with an error naming the block and the offending fragment.

use vstd::prelude::*;

use crate::domain::MonitorInfo;
use crate::domain::MonitorInfoV;
use crate::domain::Vector;
use crate::domain::rotation_of_code;
use crate::domain::spec_rotation_of_code;
use crate::strings::excludes;
use crate::strings::lemma_split_len;
use crate::strings::lemma_split_pieces_exclude;
use crate::strings::lemma_split_single_excludes;
use crate::strings::lemma_trim_excludes;
use crate::strings::parse_u16_str;
use crate::strings::spec_parse_u16;
use crate::strings::spec_split;
use crate::strings::spec_trim;
use crate::strings::split_str;
use crate::strings::trim_str;

verus! {

/// Blank line between two blocks.
pub open spec fn blank_sep() -> Seq<char> {
    seq!['\n', '\n']
}

/// Line separator inside a block.
pub open spec fn line_sep() -> Seq<char> {
    seq!['\n']
}

/// Token separator on the header line.
pub open spec fn space_sep() -> Seq<char> {
    seq![' ']
}

/// Separator between the size and the position on the second line.
pub open spec fn at_sep() -> Seq<char> {
    seq![' ', 'a', 't', ' ']
}

/// Separator between width and height, and between the two coordinates.
pub open spec fn x_sep() -> Seq<char> {
    seq!['x']
}

/// Separator before the transform code.
pub open spec fn colon_sep() -> Seq<char> {
    seq![':']
}

/// What was wrong with a malformed monitor block.
#[derive(Clone, Copy, PartialEq, Eq, Structural, Debug)]
pub enum ParseErrorKind {
    /// The header line has no second whitespace-separated token.
    MissingName,
    /// The block has fewer than the ten lines a record needs.
    MissingLine,
    /// The size line has no " at " separator.
    MissingAtSeparator,
    /// The size token has no 'x' between width and height.
    MissingSizeSeparator,
    /// The width is not a number that fits sixteen bits.
    InvalidWidth,
    /// The height is not a number that fits sixteen bits.
    InvalidHeight,
    /// The position token has no 'x' between the two coordinates.
    MissingPositionSeparator,
    /// The x position is not a number that fits sixteen bits.
    InvalidPositionX,
    /// The y position is not a number that fits sixteen bits.
    InvalidPositionY,
    /// The transform line has no ':' before the code.
    MissingTransformSeparator,
}

/// A malformed monitor block: which block failed, what was wrong, and the
/// offending fragment of the raw input.
#[derive(Clone, Debug)]
pub struct ParseError {
    pub block: usize,
    pub kind: ParseErrorKind,
    pub fragment: String,
}

/// Mathematical image of a `ParseError`.
#[verifier::ext_equal]
pub struct ParseErrorV {
    pub block: int,
    pub kind: ParseErrorKind,
    pub fragment: Seq<char>,
}

impl View for ParseError {
    type V = ParseErrorV;

    open spec fn view(&self) -> ParseErrorV {
        ParseErrorV { block: self.block as int, kind: self.kind, fragment: self.fragment@ }
    }
}

/// The prefix of `s` before its first '@', or all of `s` when it has none.
pub open spec fn spec_strip_refresh(s: Seq<char>) -> Seq<char>
    decreases s.len(),
{
    if s.len() == 0 {
        s
    } else if s[0] == '@' {
        Seq::<char>::empty()
    } else {
        seq![s[0]] + spec_strip_refresh(s.skip(1))
    }
}

/// Relies on regex::Regex::new with the fixed, valid pattern "@.*" and on
/// regex::Regex::replace_all: '.' matches anything but a newline, so on a
/// haystack without newlines the single leftmost match runs from the first
/// '@' to the end, and replacing it with "" keeps exactly the prefix before
/// that '@'; a haystack without '@' comes back unchanged.
#[verifier::external_body]
fn strip_refresh(s: &str) -> (stripped: String)
    requires
        excludes(s@, '\n'),
    ensures
        stripped@ == spec_strip_refresh(s@),
{
    let re = regex::Regex::new("@.*").expect("a fixed valid pattern");
    re.replace_all(s, "").into_owned()
}

/// One parsed monitor block, after the header name, the size line and the
/// transform line have been picked out of it.
pub open spec fn spec_parse_fields(
    name: Seq<char>,
    size_line: Seq<char>,
    transform_line: Seq<char>,
    idx: int,
) -> Result<MonitorInfoV, ParseErrorV> {
    let at_parts = spec_split(size_line, at_sep());
    if at_parts.len() < 2 {
        Err(
            ParseErrorV {
                block: idx,
                kind: ParseErrorKind::MissingAtSeparator,
                fragment: size_line,
            },
        )
    } else {
        let size_str = spec_strip_refresh(spec_trim(at_parts[0]));
        let size_parts = spec_split(size_str, x_sep());
        if size_parts.len() < 2 {
            Err(
                ParseErrorV {
                    block: idx,
                    kind: ParseErrorKind::MissingSizeSeparator,
                    fragment: size_str,
                },
            )
        } else {
            match spec_parse_u16(size_parts[0]) {
                None => Err(
                    ParseErrorV {
                        block: idx,
                        kind: ParseErrorKind::InvalidWidth,
                        fragment: size_parts[0],
                    },
                ),
                Some(width) => match spec_parse_u16(size_parts[1]) {
                    None => Err(
                        ParseErrorV {
                            block: idx,
                            kind: ParseErrorKind::InvalidHeight,
                            fragment: size_parts[1],
                        },
                    ),
                    Some(height) => {
                        let pos_str = spec_trim(at_parts[1]);
                        let pos_parts = spec_split(pos_str, x_sep());
                        if pos_parts.len() < 2 {
                            Err(
                                ParseErrorV {
                                    block: idx,
                                    kind: ParseErrorKind::MissingPositionSeparator,
                                    fragment: pos_str,
                                },
                            )
                        } else {
                            match spec_parse_u16(pos_parts[0]) {
                                None => Err(
                                    ParseErrorV {
                                        block: idx,
                                        kind: ParseErrorKind::InvalidPositionX,
                                        fragment: pos_parts[0],
                                    },
                                ),
                                Some(pos_x) => match spec_parse_u16(pos_parts[1]) {
                                    None => Err(
                                        ParseErrorV {
                                            block: idx,
                                            kind: ParseErrorKind::InvalidPositionY,
                                            fragment: pos_parts[1],
                                        },
                                    ),
                                    Some(pos_y) => {
                                        let t_parts = spec_split(
                                            spec_trim(transform_line),
                                            colon_sep(),
                                        );
                                        if t_parts.len() < 2 {
                                            Err(
                                                ParseErrorV {
                                                    block: idx,
                                                    kind: ParseErrorKind::MissingTransformSeparator,
                                                    fragment: transform_line,
                                                },
                                            )
                                        } else {
                                            let rotation = match spec_parse_u16(
                                                spec_trim(t_parts[1]),
                                            ) {
                                                Some(code) => spec_rotation_of_code(code),
                                                None => 0u16,
                                            };
                                            Ok(
                                                MonitorInfoV {
                                                    name: name,
                                                    position: Vector { x: pos_x, y: pos_y },
                                                    rotation: rotation,
                                                    dimensions: Vector { x: width, y: height },
                                                },
                                            )
                                        }
                                    },
                                },
                            }
                        }
                    },
                },
            }
        }
    }
}

/// One monitor block, parsed: the name is the second token of the first
/// line, the size and position come from the second line, the rotation from
/// the tenth.
pub open spec fn spec_parse_block(block: Seq<char>, idx: int) -> Result<MonitorInfoV, ParseErrorV> {
    let lines = spec_split(block, line_sep());
    let header = spec_split(lines[0], space_sep());
    if header.len() < 2 {
        Err(ParseErrorV { block: idx, kind: ParseErrorKind::MissingName, fragment: lines[0] })
    } else if lines.len() < 10 {
        Err(ParseErrorV { block: idx, kind: ParseErrorKind::MissingLine, fragment: block })
    } else {
        spec_parse_fields(header[1], lines[1], lines[9], idx)
    }
}

/// Whether a block is the end-of-list sentinel: its first line is empty.
pub open spec fn spec_is_sentinel(block: Seq<char>) -> bool {
    spec_split(block, line_sep())[0].len() == 0
}

/// The remaining blocks, parsed in order: stop successfully at the first
/// sentinel, fail on the first malformed block, collect every record before
/// that.
pub open spec fn spec_parse_blocks(blocks: Seq<Seq<char>>, idx: int) -> Result<
    Seq<MonitorInfoV>,
    ParseErrorV,
>
    decreases blocks.len(),
{
    if blocks.len() == 0 {
        Ok(Seq::<MonitorInfoV>::empty())
    } else if spec_is_sentinel(blocks[0]) {
        Ok(Seq::<MonitorInfoV>::empty())
    } else {
        match spec_parse_block(blocks[0], idx) {
            Err(e) => Err(e),
            Ok(m) => match spec_parse_blocks(blocks.skip(1), idx + 1) {
                Err(e) => Err(e),
                Ok(rest) => Ok(seq![m] + rest),
            },
        }
    }
}

/// The whole layout text, parsed: blocks are cut at blank lines and read in
/// order from block 0.
pub open spec fn spec_parse_monitors(text: Seq<char>) -> Result<Seq<MonitorInfoV>, ParseErrorV> {
    spec_parse_blocks(spec_split(text, blank_sep()), 0)
}

/// Every error a block can produce names that block: a parse failure always
/// references the block it came from.
pub proof fn lemma_parse_block_err_names_block(block: Seq<char>, idx: int)
    ensures
        spec_parse_block(block, idx) is Err ==> spec_parse_block(block, idx)->Err_0.block == idx,
{
}

/// Parsing fails with exactly the error of the first malformed block: when
/// every block before `b` is a well-formed record and block `b` is neither a
/// sentinel nor well-formed, the whole list fails with block `b`'s error —
/// no partial monitor list is returned.
pub proof fn lemma_first_bad_block_decides(blocks: Seq<Seq<char>>, start: int, b: int)
    requires
        0 <= b < blocks.len(),
        forall|j: int|
            0 <= j < b ==> !spec_is_sentinel(#[trigger] blocks[j]) && spec_parse_block(
                blocks[j],
                start + j,
            ) is Ok,
        !spec_is_sentinel(blocks[b]),
        spec_parse_block(blocks[b], start + b) is Err,
    ensures
        spec_parse_blocks(blocks, start) == Err::<Seq<MonitorInfoV>, ParseErrorV>(
            spec_parse_block(blocks[b], start + b)->Err_0,
        ),
    decreases b,
{
    if b == 0 {
    } else {
        assert(!spec_is_sentinel(blocks[0]) && spec_parse_block(blocks[0], start + 0) is Ok);
        assert forall|j: int|
            0 <= j < b - 1 implies !spec_is_sentinel(#[trigger] blocks.skip(1)[j])
            && spec_parse_block(blocks.skip(1)[j], start + 1 + j) is Ok by {
            assert(blocks.skip(1)[j] == blocks[j + 1]);
            assert(!spec_is_sentinel(blocks[j + 1]) && spec_parse_block(
                blocks[j + 1],
                start + (j + 1),
            ) is Ok);
        }
        assert(blocks.skip(1)[b - 1] == blocks[b]);
        lemma_first_bad_block_decides(blocks.skip(1), start + 1, b - 1);
    }
}

/// A block whose second line is missing the " at " separator — while its
/// header still names a monitor and the block still has its ten lines —
/// fails the whole parse with an error that references that block, that
/// names the missing separator, and that carries the offending line.
pub proof fn lemma_missing_at_separator_fails(blocks: Seq<Seq<char>>, start: int, b: int)
    requires
        0 <= b < blocks.len(),
        forall|j: int|
            0 <= j < b ==> !spec_is_sentinel(#[trigger] blocks[j]) && spec_parse_block(
                blocks[j],
                start + j,
            ) is Ok,
        !spec_is_sentinel(blocks[b]),
        spec_split(spec_split(blocks[b], line_sep())[0], space_sep()).len() >= 2,
        spec_split(blocks[b], line_sep()).len() >= 10,
        spec_split(spec_split(blocks[b], line_sep())[1], at_sep()).len() < 2,
    ensures
        spec_parse_blocks(blocks, start) == Err::<Seq<MonitorInfoV>, ParseErrorV>(
            ParseErrorV {
                block: start + b,
                kind: ParseErrorKind::MissingAtSeparator,
                fragment: spec_split(blocks[b], line_sep())[1],
            },
        ),
{
    assert(spec_parse_block(blocks[b], start + b) == Err::<MonitorInfoV, ParseErrorV>(
        ParseErrorV {
            block: start + b,
            kind: ParseErrorKind::MissingAtSeparator,
            fragment: spec_split(blocks[b], line_sep())[1],
        },
    ));
    lemma_first_bad_block_decides(blocks, start, b);
}

/// The end-of-list sentinel: when every block before `b` is a well-formed
/// record and block `b`'s first line is empty, the parse ends successfully
/// with exactly those `b` records — whatever text follows the sentinel.
pub proof fn lemma_sentinel_ends_list(blocks: Seq<Seq<char>>, start: int, b: int)
    requires
        0 <= b < blocks.len(),
        forall|j: int|
            0 <= j < b ==> !spec_is_sentinel(#[trigger] blocks[j]) && spec_parse_block(
                blocks[j],
                start + j,
            ) is Ok,
        spec_is_sentinel(blocks[b]),
    ensures
        spec_parse_blocks(blocks, start) == Ok::<Seq<MonitorInfoV>, ParseErrorV>(
            Seq::new(b as nat, |j: int| spec_parse_block(blocks[j], start + j)->Ok_0),
        ),
    decreases b,
{
    if b == 0 {
        assert(Seq::new(0nat, |j: int| spec_parse_block(blocks[j], start + j)->Ok_0)
            =~= Seq::<MonitorInfoV>::empty());
    } else {
        assert(!spec_is_sentinel(blocks[0]) && spec_parse_block(blocks[0], start + 0) is Ok);
        assert forall|j: int|
            0 <= j < b - 1 implies !spec_is_sentinel(#[trigger] blocks.skip(1)[j])
            && spec_parse_block(blocks.skip(1)[j], start + 1 + j) is Ok by {
            assert(blocks.skip(1)[j] == blocks[j + 1]);
            assert(!spec_is_sentinel(blocks[j + 1]) && spec_parse_block(
                blocks[j + 1],
                start + (j + 1),
            ) is Ok);
        }
        assert(blocks.skip(1)[b - 1] == blocks[b]);
        lemma_sentinel_ends_list(blocks.skip(1), start + 1, b - 1);
        let m0 = spec_parse_block(blocks[0], start)->Ok_0;
        let shifted = Seq::new((b - 1) as nat, |j: int| spec_parse_block(
            blocks.skip(1)[j],
            start + 1 + j,
        )->Ok_0);
        let whole = Seq::new(b as nat, |j: int| spec_parse_block(blocks[j], start + j)->Ok_0);
        assert forall|j: int| 0 <= j < b implies (seq![m0] + shifted)[j] == whole[j] by {
            if j > 0 {
                assert(blocks.skip(1)[j - 1] == blocks[j]);
            }
        }
        assert(seq![m0] + shifted =~= whole);
    }
}

/// Every rotation a successful parse produces is one of the four cardinal
/// angles 0, 90, 180 or 270: the rotation table has no other values.
pub proof fn lemma_parsed_rotations_cardinal(blocks: Seq<Seq<char>>, start: int)
    ensures
        spec_parse_blocks(blocks, start) is Ok ==> forall|i: int|
            0 <= i < spec_parse_blocks(blocks, start)->Ok_0.len() ==> {
                let rotation = (#[trigger] spec_parse_blocks(blocks, start)->Ok_0[i]).rotation;
                rotation == 0 || rotation == 90 || rotation == 180 || rotation == 270
            },
    decreases blocks.len(),
{
    if blocks.len() == 0 || spec_is_sentinel(blocks[0]) {
    } else {
        match spec_parse_block(blocks[0], start) {
            Err(_) => {},
            Ok(m) => {
                lemma_parsed_rotations_cardinal(blocks.skip(1), start + 1);
            },
        }
    }
}

/// Parses one monitor block, exactly as `spec_parse_block` describes.
fn parse_block(block: &str, idx: usize) -> (parsed: Result<MonitorInfo, ParseError>)
    ensures
        match parsed {
            Ok(m) => spec_parse_block(block@, idx as int) == Ok::<MonitorInfoV, ParseErrorV>(m@),
            Err(e) => spec_parse_block(block@, idx as int) == Err::<MonitorInfoV, ParseErrorV>(
                e@,
            ),
        },
{
    proof {
        reveal_strlit("\n");
        reveal_strlit(" ");
        reveal_strlit(" at ");
        reveal_strlit("x");
        reveal_strlit(":");
        assert("\n"@ =~= line_sep());
        assert(" "@ =~= space_sep());
        assert(" at "@ =~= at_sep());
        assert("x"@ =~= x_sep());
        assert(":"@ =~= colon_sep());
    }
    let lines = split_str(block, "\n");
    let ghost lines_v = spec_split(block@, line_sep());
    proof {
        assert(lines.deep_view() == lines_v);
        assert(lines.deep_view().len() == lines@.len());
        assert(lines@[0]@ == lines.deep_view()[0]);
    }
    let header = split_str(lines[0], " ");
    proof {
        assert(header.deep_view() == spec_split(lines_v[0], space_sep()));
        assert(header.deep_view().len() == header@.len());
    }
    if header.len() < 2 {
        return Err(
            ParseError {
                block: idx,
                kind: ParseErrorKind::MissingName,
                fragment: lines[0].to_owned(),
            },
        );
    }
    if lines.len() < 10 {
        return Err(
            ParseError { block: idx, kind: ParseErrorKind::MissingLine, fragment: block.to_owned() },
        );
    }
    let name = header[1];
    let size_line = lines[1];
    let transform_line = lines[9];
    proof {
        assert(header@[1]@ == header.deep_view()[1]);
        assert(lines@[1]@ == lines.deep_view()[1]);
        assert(lines@[9]@ == lines.deep_view()[9]);
        assert(name@ == spec_split(lines_v[0], space_sep())[1]);
        assert(size_line@ == lines_v[1]);
        assert(transform_line@ == lines_v[9]);
    }
    let at_parts = split_str(size_line, " at ");
    proof {
        assert(at_parts.deep_view() == spec_split(size_line@, at_sep()));
        assert(at_parts.deep_view().len() == at_parts@.len());
    }
    if at_parts.len() < 2 {
        return Err(
            ParseError {
                block: idx,
                kind: ParseErrorKind::MissingAtSeparator,
                fragment: size_line.to_owned(),
            },
        );
    }
    let size_raw = trim_str(at_parts[0]);
    proof {
        lemma_split_single_excludes(block@, '\n');
        assert(excludes(size_line@, '\n'));
        lemma_split_pieces_exclude(size_line@, at_sep(), '\n');
        assert(excludes(at_parts.deep_view()[0], '\n'));
        lemma_trim_excludes(at_parts.deep_view()[0], '\n');
        assert(at_parts@[0]@ == at_parts.deep_view()[0]);
    }
    let size_str = strip_refresh(size_raw);
    proof {
        assert(size_str@ == spec_strip_refresh(spec_trim(spec_split(size_line@, at_sep())[0])));
    }
    let size_parts = split_str(size_str.as_str(), "x");
    proof {
        assert(size_parts.deep_view() == spec_split(size_str@, x_sep()));
        assert(size_parts.deep_view().len() == size_parts@.len());
    }
    if size_parts.len() < 2 {
        return Err(
            ParseError {
                block: idx,
                kind: ParseErrorKind::MissingSizeSeparator,
                fragment: size_str,
            },
        );
    }
    proof {
        assert(size_parts@[0]@ == size_parts.deep_view()[0]);
        assert(size_parts@[1]@ == size_parts.deep_view()[1]);
    }
    let width = match parse_u16_str(size_parts[0]) {
        Some(w) => w,
        None => {
            return Err(
                ParseError {
                    block: idx,
                    kind: ParseErrorKind::InvalidWidth,
                    fragment: size_parts[0].to_owned(),
                },
            );
        },
    };
    let height = match parse_u16_str(size_parts[1]) {
        Some(h) => h,
        None => {
            return Err(
                ParseError {
                    block: idx,
                    kind: ParseErrorKind::InvalidHeight,
                    fragment: size_parts[1].to_owned(),
                },
            );
        },
    };
    let pos_str = trim_str(at_parts[1]);
    proof {
        assert(at_parts@[1]@ == at_parts.deep_view()[1]);
        assert(pos_str@ == spec_trim(spec_split(size_line@, at_sep())[1]));
    }
    let pos_parts = split_str(pos_str, "x");
    proof {
        assert(pos_parts.deep_view() == spec_split(pos_str@, x_sep()));
        assert(pos_parts.deep_view().len() == pos_parts@.len());
    }
    if pos_parts.len() < 2 {
        return Err(
            ParseError {
                block: idx,
                kind: ParseErrorKind::MissingPositionSeparator,
                fragment: pos_str.to_owned(),
            },
        );
    }
    proof {
        assert(pos_parts@[0]@ == pos_parts.deep_view()[0]);
        assert(pos_parts@[1]@ == pos_parts.deep_view()[1]);
    }
    let pos_x = match parse_u16_str(pos_parts[0]) {
        Some(x) => x,
        None => {
            return Err(
                ParseError {
                    block: idx,
                    kind: ParseErrorKind::InvalidPositionX,
                    fragment: pos_parts[0].to_owned(),
                },
            );
        },
    };
    let pos_y = match parse_u16_str(pos_parts[1]) {
        Some(y) => y,
        None => {
            return Err(
                ParseError {
                    block: idx,
                    kind: ParseErrorKind::InvalidPositionY,
                    fragment: pos_parts[1].to_owned(),
                },
            );
        },
    };
    let t_trim = trim_str(transform_line);
    let t_parts = split_str(t_trim, ":");
    proof {
        assert(t_parts.deep_view() == spec_split(spec_trim(transform_line@), colon_sep()));
        assert(t_parts.deep_view().len() == t_parts@.len());
    }
    if t_parts.len() < 2 {
        return Err(
            ParseError {
                block: idx,
                kind: ParseErrorKind::MissingTransformSeparator,
                fragment: transform_line.to_owned(),
            },
        );
    }
    proof {
        assert(t_parts@[1]@ == t_parts.deep_view()[1]);
    }
    let code_str = trim_str(t_parts[1]);
    let rotation = match parse_u16_str(code_str) {
        Some(code) => rotation_of_code(code),
        None => 0,
    };
    let monitor = MonitorInfo {
        name: name.to_owned(),
        position: Vector { x: pos_x, y: pos_y },
        rotation,
        dimensions: Vector { x: width, y: height },
    };
    proof {
        assert(code_str@ == spec_trim(spec_split(spec_trim(transform_line@), colon_sep())[1]));
        assert(spec_parse_fields(name@, size_line@, transform_line@, idx as int)
            == Ok::<MonitorInfoV, ParseErrorV>(monitor@));
    }
    Ok(monitor)
}

/// Parses the whole layout text, exactly as `spec_parse_monitors` describes:
/// all records before the first sentinel block, or the error of the first
/// malformed block.
pub fn parse_monitors(text: &str) -> (parsed: Result<Vec<MonitorInfo>, ParseError>)
    ensures
        match parsed {
            Ok(monitors) => spec_parse_monitors(text@) == Ok::<Seq<MonitorInfoV>, ParseErrorV>(
                monitors.deep_view(),
            ),
            Err(e) => spec_parse_monitors(text@) == Err::<Seq<MonitorInfoV>, ParseErrorV>(e@),
        },
{
    proof {
        reveal_strlit("\n\n");
        reveal_strlit("\n");
        assert("\n\n"@ =~= blank_sep());
        assert("\n"@ =~= line_sep());
    }
    let blocks = split_str(text, "\n\n");
    let ghost bs = spec_split(text@, blank_sep());
    proof {
        assert(blocks.deep_view() == bs);
        assert(blocks.deep_view().len() == blocks@.len());
        assert(bs.skip(0) =~~= bs);
    }
    let mut monitors: Vec<MonitorInfo> = Vec::new();
    let mut b: usize = 0;
    while b < blocks.len()
        invariant
            bs == spec_split(text@, blank_sep()),
            blocks.deep_view() == bs,
            bs.len() == blocks@.len(),
            0 <= b <= bs.len(),
            (match spec_parse_blocks(bs.skip(b as int), b as int) {
                Ok(rest) => spec_parse_monitors(text@) == Ok::<Seq<MonitorInfoV>, ParseErrorV>(
                    monitors.deep_view() + rest,
                ),
                Err(e) => spec_parse_monitors(text@) == Err::<Seq<MonitorInfoV>, ParseErrorV>(e),
            }),
        decreases blocks.len() - b,
    {
        proof {
            reveal_strlit("\n");
            assert("\n"@ =~= line_sep());
            assert(blocks@[b as int]@ == bs[b as int]);
            assert(bs.skip(b as int)[0] == bs[b as int]);
            assert(bs.skip(b as int).skip(1) =~~= bs.skip(b + 1));
        }
        let lines = split_str(blocks[b], "\n");
        proof {
            assert(lines.deep_view() == spec_split(bs[b as int], line_sep()));
            assert(lines@[0]@ == lines.deep_view()[0]);
        }
        if lines[0].is_empty() {
            proof {
                assert(spec_is_sentinel(bs[b as int]));
                assert(spec_parse_blocks(bs.skip(b as int), b as int) == Ok::<Seq<MonitorInfoV>,
                    ParseErrorV,
                >(Seq::<MonitorInfoV>::empty()));
                assert(monitors.deep_view() + Seq::<MonitorInfoV>::empty() =~~= monitors.deep_view());
            }
            return Ok(monitors);
        }
        proof {
            assert(!spec_is_sentinel(bs[b as int]));
        }
        match parse_block(blocks[b], b) {
            Err(e) => {
                proof {
                    assert(spec_parse_blocks(bs.skip(b as int), b as int) == Err::<
                        Seq<MonitorInfoV>,
                        ParseErrorV,
                    >(e@));
                }
                return Err(e);
            },
            Ok(m) => {
                let ghost prev = monitors.deep_view();
                let ghost mv = m@;
                monitors.push(m);
                proof {
                    assert(monitors.deep_view() =~~= prev + seq![mv]);
                    let tail_new = spec_parse_blocks(bs.skip(b + 1), b + 1);
                    match tail_new {
                        Ok(rest) => {
                            assert(spec_parse_blocks(bs.skip(b as int), b as int) == Ok::<
                                Seq<MonitorInfoV>,
                                ParseErrorV,
                            >(seq![mv] + rest));
                            assert(prev + (seq![mv] + rest) =~~= (prev + seq![mv]) + rest);
                        },
                        Err(e) => {
                            assert(spec_parse_blocks(bs.skip(b as int), b as int) == Err::<
                                Seq<MonitorInfoV>,
                                ParseErrorV,
                            >(e));
                        },
                    }
                }
                b += 1;
            },
        }
    }
    proof {
        assert(bs.skip(b as int).len() == 0);
        assert(spec_parse_blocks(bs.skip(b as int), b as int) == Ok::<Seq<MonitorInfoV>,
            ParseErrorV,
        >(Seq::<MonitorInfoV>::empty()));
        assert(monitors.deep_view() + Seq::<MonitorInfoV>::empty() =~~= monitors.deep_view());
    }
    Ok(monitors)
}

} // verus!
