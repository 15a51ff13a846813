use vstd::prelude::*;

use crate::config::Config;
use crate::dates::{display_date_spec, get_date};
use crate::lookup_versions::MountsForFiles;
use crate::pathdata::PathData;
use crate::strings::{dec_digit, dec_str, path_display, path_to_string, u64_to_string};
use crate::versions_lookup::SnapsAndLiveSet;

verus! {

/// Relies on terminal_size::terminal_size: the width of the attached
/// terminal, when standard output is one.  The result depends on the
/// environment, so nothing is promised of it.
#[verifier::external_body]
fn probe_terminal_width() -> Option<u16> {
    match terminal_size::terminal_size() {
        Some((terminal_size::Width(w), _)) => Some(w),
        None => None,
    }
}

/// The value scaled into `unit`, in tenths, rounded half-up.
pub open spec fn scaled_tenths(size: int, unit: int) -> int {
    (size * 10 + unit / 2) / unit
}

/// `<whole>.<tenth>` of a scaled value.
pub open spec fn scaled_chars(size: int, unit: int) -> Seq<char> {
    dec_str(scaled_tenths(size, unit) / 10) + seq!['.'] + seq![
        dec_digit(scaled_tenths(size, unit) % 10),
    ]
}

/// A byte count in human-readable binary units: plain bytes below one
/// KiB, else one decimal place of the matching binary prefix.
pub open spec fn human_size_spec(size: int) -> Seq<char> {
    if size < 0x400 {
        dec_str(size) + " bytes"@
    } else if size < 0x100000 {
        scaled_chars(size, 0x400) + " KiB"@
    } else if size < 0x40000000 {
        scaled_chars(size, 0x100000) + " MiB"@
    } else if size < 0x10000000000 {
        scaled_chars(size, 0x40000000) + " GiB"@
    } else if size < 0x4000000000000 {
        scaled_chars(size, 0x10000000000) + " TiB"@
    } else if size < 0x1000000000000000 {
        scaled_chars(size, 0x4000000000000) + " PiB"@
    } else {
        scaled_chars(size, 0x1000000000000000) + " EiB"@
    }
}

/// Render one scaled value.
fn scaled_string(size: u64, unit: u64) -> (r: String)
    requires
        unit >= 0x400,
        unit <= 0x1000000000000000,
    ensures
        r@ == scaled_chars(size as int, unit as int),
{
    let tenths_wide: u128 = ((size as u128) * 10 + (unit / 2) as u128) / (unit as u128);
    let ghost dividend: int = (size as int) * 10 + (unit as int) / 2;
    proof {
        assert(tenths_wide as int == dividend / (unit as int));
        assert(tenths_wide as int == scaled_tenths(size as int, unit as int));
        assert(dividend <= 0xffff_ffff_ffff_ffff * 10 + 0x800_0000_0000_0000);
        assert(dividend / (unit as int) <= 0xffff_ffff_ffff_ffff) by (nonlinear_arith)
            requires
                0 <= dividend <= 0xffff_ffff_ffff_ffff * 10 + 0x800_0000_0000_0000,
                unit >= 0x400,
        ;
    }
    let tenths: u64 = tenths_wide as u64;
    let mut out = u64_to_string(tenths / 10);
    out.append(".");
    out.append(crate::strings::digit_str(tenths % 10));
    proof {
        reveal_strlit(".");
        assert(out@ =~= scaled_chars(size as int, unit as int));
    }
    out
}

/// A byte count for humans.
pub fn display_human_size(size: &u64) -> (r: String)
    ensures
        r@ == human_size_spec(*size as int),
{
    let s = *size;
    if s < 0x400 {
        let mut out = u64_to_string(s);
        out.append(" bytes");
        out
    } else if s < 0x100000 {
        let mut out = scaled_string(s, 0x400);
        out.append(" KiB");
        out
    } else if s < 0x40000000 {
        let mut out = scaled_string(s, 0x100000);
        out.append(" MiB");
        out
    } else if s < 0x10000000000 {
        let mut out = scaled_string(s, 0x40000000);
        out.append(" GiB");
        out
    } else if s < 0x4000000000000 {
        let mut out = scaled_string(s, 0x10000000000);
        out.append(" TiB");
        out
    } else if s < 0x1000000000000000 {
        let mut out = scaled_string(s, 0x4000000000000);
        out.append(" PiB");
        out
    } else {
        let mut out = scaled_string(s, 0x1000000000000000);
        out.append(" EiB");
        out
    }
}

/// `n` spaces.
pub open spec fn spaces(n: int) -> Seq<char>
    decreases n,
{
    if n <= 0 {
        Seq::empty()
    } else {
        spaces(n - 1).push(' ')
    }
}

/// `n` horizontal border marks.
pub open spec fn dashes(n: int) -> Seq<char>
    decreases n,
{
    if n <= 0 {
        Seq::empty()
    } else {
        dashes(n - 1).push('─')
    }
}

pub proof fn lemma_spaces_len(n: int)
    ensures
        spaces(n).len() == if n <= 0 {
            0int
        } else {
            n
        },
    decreases n,
{
    if n > 0 {
        lemma_spaces_len(n - 1);
    }
}

fn make_spaces(n: usize) -> (r: String)
    ensures
        r@ == spaces(n as int),
{
    let mut out = String::new();
    let mut i: usize = 0;
    while i < n
        invariant
            i <= n,
            out@ == spaces(i as int),
        decreases n - i,
    {
        out.append(" ");
        proof {
            reveal_strlit(" ");
            assert(out@ =~= spaces(i + 1));
        }
        i = i + 1;
    }
    out
}

fn make_dashes(n: usize) -> (r: String)
    ensures
        r@ == dashes(n as int),
{
    let mut out = String::new();
    let mut i: usize = 0;
    while i < n
        invariant
            i <= n,
            out@ == dashes(i as int),
        decreases n - i,
    {
        out.append("─");
        proof {
            reveal_strlit("─");
            assert(out@ =~= dashes(i + 1));
        }
        i = i + 1;
    }
    out
}

/// Left-pad to width `w` with spaces (no-op when already wider).
pub open spec fn pad_left(s: Seq<char>, w: int) -> Seq<char> {
    spaces(w - s.len()) + s
}

/// Right-pad to width `w` with spaces.
pub open spec fn pad_right(s: Seq<char>, w: int) -> Seq<char> {
    s + spaces(w - s.len())
}

/// The size a record displays: its length, or zero for a phantom (the
/// sentinel exists only to settle column widths).
pub open spec fn record_size(p: PathData) -> int {
    if p.metadata is Some {
        p.metadata->Some_0.size as int
    } else {
        0
    }
}

/// The modify time a record displays, in seconds; epoch for a phantom.
pub open spec fn record_mtime_secs(p: PathData) -> int {
    if p.metadata is Some {
        p.metadata->Some_0.mtime as int / 1000000000
    } else {
        0
    }
}

/// One displayed line of one record.  In plain mode the fields come tab
/// separated; in pretty mode the size is right-aligned, the path quoted
/// and left-aligned, and two spaces stand between the fields.  A phantom
/// record displays blanks in the date and size columns.
pub open spec fn pathdata_line_spec(
    no_pretty: bool,
    p: PathData,
    size_pad: int,
    phantom_date_pad: Seq<char>,
    phantom_size_pad: Seq<char>,
) -> Seq<char> {
    let date = if p.metadata is Some {
        display_date_spec(record_mtime_secs(p))
    } else {
        phantom_date_pad
    };
    let size_raw = if p.metadata is Some {
        human_size_spec(record_size(p))
    } else {
        phantom_size_pad
    };
    if no_pretty {
        date + seq!['\t'] + size_raw + seq!['\t'] + path_display(p.path_buf@) + seq!['\n']
    } else {
        date + "  "@ + pad_left(size_raw, size_pad) + "  "@ + seq!['"'] + pad_right(
            path_display(p.path_buf@),
            size_pad,
        ) + seq!['"'] + seq!['\n']
    }
}

/// The column widths and border the pretty display uses.
#[derive(Debug)]
pub struct PaddingCollection {
    pub size_padding_len: usize,
    pub fancy_border_string: String,
    pub phantom_date_pad_str: String,
    pub phantom_size_pad_str: String,
}

/// One record's line as displayed.
#[verifier::rlimit(60)]
pub fn display_pathdata(config: &Config, pathdata: &PathData, padding: &PaddingCollection) -> (r:
    String)
    ensures
        r@ == pathdata_line_spec(
            config.opt_no_pretty,
            *pathdata,
            padding.size_padding_len as int,
            padding.phantom_date_pad_str@,
            padding.phantom_size_pad_str@,
        ),
{
    let md = pathdata.md_infallible();
    let display_date: String = if pathdata.phantom() {
        padding.phantom_date_pad_str.clone()
    } else {
        get_date(md.mtime)
    };
    let display_size: String = if pathdata.phantom() {
        padding.phantom_size_pad_str.clone()
    } else {
        display_human_size(&md.size)
    };
    let display_path = path_to_string(&pathdata.path_buf);

    if config.opt_no_pretty {
        let mut out = display_date;
        out.append("\t");
        out.append(display_size.as_str());
        out.append("\t");
        out.append(display_path.as_str());
        out.append("\n");
        proof {
            reveal_strlit("\t");
            reveal_strlit("\n");
            assert(out@ =~= pathdata_line_spec(
                config.opt_no_pretty,
                *pathdata,
                padding.size_padding_len as int,
                padding.phantom_date_pad_str@,
                padding.phantom_size_pad_str@,
            ));
        }
        out
    } else {
        let mut out = display_date;
        out.append("  ");
        let size_len = display_size.as_str().unicode_len();
        if size_len < padding.size_padding_len {
            out.append(make_spaces(padding.size_padding_len - size_len).as_str());
        }
        out.append(display_size.as_str());
        out.append("  ");
        out.append("\"");
        out.append(display_path.as_str());
        let path_len = display_path.as_str().unicode_len();
        if path_len < padding.size_padding_len {
            out.append(make_spaces(padding.size_padding_len - path_len).as_str());
        }
        out.append("\"");
        out.append("\n");
        proof {
            reveal_strlit("  ");
            reveal_strlit("\"");
            reveal_strlit("\n");
            lemma_spaces_len(padding.size_padding_len - display_size@.len());
            lemma_spaces_len(padding.size_padding_len - display_path@.len());
            assert(out@ =~= pathdata_line_spec(
                config.opt_no_pretty,
                *pathdata,
                padding.size_padding_len as int,
                padding.phantom_date_pad_str@,
                padding.phantom_size_pad_str@,
            ));
        }
        out
    }
}

/// The greater of two widths.
pub open spec fn max_int(a: int, b: int) -> int {
    if a >= b {
        a
    } else {
        b
    }
}

/// The widest size column any of the records needs.
pub open spec fn max_size_len(s: Seq<PathData>) -> int
    decreases s.len(),
{
    if s.len() == 0 {
        0
    } else {
        max_int(max_size_len(s.drop_last()), human_size_spec(record_size(s.last())).len() as int)
    }
}

/// The length of one record's pretty line.
pub open spec fn line_len(p: PathData, size_pad: int) -> int {
    display_date_spec(record_mtime_secs(p)).len() as int + pad_left(
        human_size_spec(record_size(p)),
        size_pad,
    ).len() as int + path_display(p.path_buf@).len() as int + 6
}

/// The widest pretty line any of the records needs.
pub open spec fn max_line_len(s: Seq<PathData>, size_pad: int) -> int
    decreases s.len(),
{
    if s.len() == 0 {
        0
    } else {
        max_int(max_line_len(s.drop_last(), size_pad), line_len(s.last(), size_pad))
    }
}

/// The widest size column of one record list, at run time.
fn size_len_of(s: &Vec<PathData>) -> (r: usize)
    ensures
        r == max_size_len(s@),
{
    let mut best: usize = 0;
    let mut i: usize = 0;
    proof {
        assert(s@.subrange(0, 0) =~= Seq::<PathData>::empty());
    }
    while i < s.len()
        invariant
            i <= s@.len(),
            best == max_size_len(s@.subrange(0, i as int)),
        decreases s@.len() - i,
    {
        let md = s[i].md_infallible();
        let size: u64 = if s[i].phantom() {
            0
        } else {
            md.size
        };
        let this_len = display_human_size(&size).as_str().unicode_len();
        if this_len > best {
            best = this_len;
        }
        proof {
            assert(s@.subrange(0, i + 1).drop_last() =~= s@.subrange(0, i as int));
            assert(s@.subrange(0, i + 1).last() == s@[i as int]);
        }
        i = i + 1;
    }
    proof {
        assert(s@.subrange(0, s@.len() as int) =~= s@);
    }
    best
}

/// The widest pretty line of one record list, at run time.
fn line_len_of(s: &Vec<PathData>, size_pad: usize) -> (r: u128)
    ensures
        r == max_line_len(s@, size_pad as int),
{
    let mut best: u128 = 0;
    let mut i: usize = 0;
    proof {
        assert(s@.subrange(0, 0) =~= Seq::<PathData>::empty());
    }
    while i < s.len()
        invariant
            i <= s@.len(),
            best == max_line_len(s@.subrange(0, i as int), size_pad as int),
        decreases s@.len() - i,
    {
        let md = s[i].md_infallible();
        let size: u64 = if s[i].phantom() {
            0
        } else {
            md.size
        };
        let mtime: u64 = if s[i].phantom() {
            0
        } else {
            md.mtime
        };
        let date_len = get_date(mtime).as_str().unicode_len();
        let size_str_len = display_human_size(&size).as_str().unicode_len();
        let size_field_len = if size_str_len >= size_pad {
            size_str_len
        } else {
            size_pad
        };
        let path_len = path_to_string(&s[i].path_buf).as_str().unicode_len();

        let this_len: u128 = date_len as u128 + size_field_len as u128 + path_len as u128 + 6;
        proof {
            lemma_spaces_len(size_pad - human_size_spec(record_size(s@[i as int])).len());
            assert(this_len == line_len(s@[i as int], size_pad as int));
        }
        if this_len > best {
            best = this_len;
        }
        proof {
            assert(s@.subrange(0, i + 1).drop_last() =~= s@.subrange(0, i as int));
            assert(s@.subrange(0, i + 1).last() == s@[i as int]);
        }
        i = i + 1;
    }
    proof {
        assert(s@.subrange(0, s@.len() as int) =~= s@);
    }
    best
}

/// Compute the pretty paddings: the size column is as wide as the widest
/// size; the border is as long as the widest line, clamped to the
/// terminal's width when one is attached; phantoms pad to the width of the
/// epoch date and the zero size.
pub fn calculate_pretty_padding(config: &Config, snaps_and_live_set: &SnapsAndLiveSet) -> (r:
    PaddingCollection)
    ensures
        r.size_padding_len == max_int(
            max_size_len(snaps_and_live_set.snaps@),
            max_size_len(snaps_and_live_set.live@),
        ),
        exists|l: int|
            0 <= l <= max_int(
                max_line_len(snaps_and_live_set.snaps@, r.size_padding_len as int),
                max_line_len(snaps_and_live_set.live@, r.size_padding_len as int),
            ) && r.fancy_border_string@ == #[trigger] dashes(l).push('\n'),
        r.phantom_date_pad_str@ == spaces(display_date_spec(0).len() as int),
        r.phantom_size_pad_str@ == spaces(human_size_spec(0).len() as int),
{
    let snaps_size = size_len_of(&snaps_and_live_set.snaps);
    let live_size = size_len_of(&snaps_and_live_set.live);
    let size_padding_len = if snaps_size >= live_size {
        snaps_size
    } else {
        live_size
    };

    let snaps_line = line_len_of(&snaps_and_live_set.snaps, size_padding_len);
    let live_line = line_len_of(&snaps_and_live_set.live, size_padding_len);
    let fancy_border_len: u128 = if snaps_line >= live_line {
        snaps_line
    } else {
        live_line
    };

    let capped: u128 = match probe_terminal_width() {
        Some(width) => {
            if (width as u128) < fancy_border_len {
                width as u128
            } else {
                fancy_border_len
            }
        },
        None => fancy_border_len,
    };
    let border_len: usize = if capped > usize::MAX as u128 {
        usize::MAX
    } else {
        capped as usize
    };
    let mut fancy_border_string = make_dashes(border_len);
    fancy_border_string.append("\n");
    proof {
        reveal_strlit("\n");
        assert(fancy_border_string@ =~= dashes(border_len as int).push('\n'));
    }

    let phantom_date_pad_str = make_spaces(get_date(0).as_str().unicode_len());
    let phantom_size_pad_str = make_spaces(display_human_size(&0).as_str().unicode_len());

    PaddingCollection {
        size_padding_len,
        fancy_border_string,
        phantom_date_pad_str,
        phantom_size_pad_str,
    }
}

/// The lines of one record list, concatenated.
pub open spec fn set_lines_spec(
    no_pretty: bool,
    s: Seq<PathData>,
    size_pad: int,
    phantom_date_pad: Seq<char>,
    phantom_size_pad: Seq<char>,
) -> Seq<char>
    decreases s.len(),
{
    if s.len() == 0 {
        Seq::empty()
    } else {
        set_lines_spec(no_pretty, s.drop_last(), size_pad, phantom_date_pad, phantom_size_pad)
            + pathdata_line_spec(no_pretty, s.last(), size_pad, phantom_date_pad, phantom_size_pad)
    }
}

fn display_set(config: &Config, s: &Vec<PathData>, padding: &PaddingCollection) -> (r: String)
    ensures
        r@ == set_lines_spec(
            config.opt_no_pretty,
            s@,
            padding.size_padding_len as int,
            padding.phantom_date_pad_str@,
            padding.phantom_size_pad_str@,
        ),
{
    let mut out = String::new();
    let mut i: usize = 0;
    proof {
        assert(s@.subrange(0, 0) =~= Seq::<PathData>::empty());
    }
    while i < s.len()
        invariant
            i <= s@.len(),
            out@ == set_lines_spec(
                config.opt_no_pretty,
                s@.subrange(0, i as int),
                padding.size_padding_len as int,
                padding.phantom_date_pad_str@,
                padding.phantom_size_pad_str@,
            ),
        decreases s@.len() - i,
    {
        out.append(display_pathdata(config, &s[i], padding).as_str());
        proof {
            assert(s@.subrange(0, i + 1).drop_last() =~= s@.subrange(0, i as int));
            assert(s@.subrange(0, i + 1).last() == s@[i as int]);
        }
        i = i + 1;
    }
    proof {
        assert(s@.subrange(0, s@.len() as int) =~= s@);
    }
    out
}

/// The whole pretty (or plain) display of one answer, given the computed
/// paddings: in plain mode the two buffers back to back; in pretty mode
/// the snapshot buffer between borders, then the live buffer and one more
/// border, empty sets eliding their borders.
pub open spec fn formatted_with(
    no_pretty: bool,
    sets: SnapsAndLiveSet,
    size_pad: int,
    border: Seq<char>,
    phantom_date_pad: Seq<char>,
    phantom_size_pad: Seq<char>,
) -> Seq<char> {
    let snaps_buf = set_lines_spec(no_pretty, sets.snaps@, size_pad, phantom_date_pad, phantom_size_pad);
    let live_buf = set_lines_spec(no_pretty, sets.live@, size_pad, phantom_date_pad, phantom_size_pad);
    if no_pretty {
        snaps_buf + live_buf
    } else {
        border + (if snaps_buf.len() > 0 {
            snaps_buf + border
        } else {
            Seq::empty()
        }) + (if sets.live@.len() > 0 {
            live_buf + border
        } else {
            Seq::empty()
        })
    }
}

/// Format one answer for humans.
pub fn display_formatted(config: &Config, snaps_and_live_set: &SnapsAndLiveSet) -> (r: String)
    ensures
        exists|l: int|
            0 <= l && r@ == formatted_with(
                config.opt_no_pretty,
                *snaps_and_live_set,
                max_int(
                    max_size_len(snaps_and_live_set.snaps@),
                    max_size_len(snaps_and_live_set.live@),
                ),
                #[trigger] dashes(l).push('\n'),
                spaces(display_date_spec(0).len() as int),
                spaces(human_size_spec(0).len() as int),
            ),
{
    let padding_collection = calculate_pretty_padding(config, snaps_and_live_set);

    let snaps_buffer = display_set(config, &snaps_and_live_set.snaps, &padding_collection);
    let live_buffer = display_set(config, &snaps_and_live_set.live, &padding_collection);

    if config.opt_no_pretty {
        let mut out = snaps_buffer;
        out.append(live_buffer.as_str());
        proof {
            let l = choose|l: int|
                0 <= l && padding_collection.fancy_border_string@ == #[trigger] dashes(l).push(
                    '\n',
                );
            assert(out@ =~= formatted_with(
                config.opt_no_pretty,
                *snaps_and_live_set,
                padding_collection.size_padding_len as int,
                dashes(l).push('\n'),
                padding_collection.phantom_date_pad_str@,
                padding_collection.phantom_size_pad_str@,
            ));
        }
        out
    } else {
        let mut out = padding_collection.fancy_border_string.clone();
        if snaps_buffer.as_str().unicode_len() > 0 {
            out.append(snaps_buffer.as_str());
            out.append(padding_collection.fancy_border_string.as_str());
        }
        if snaps_and_live_set.live.len() > 0 {
            out.append(live_buffer.as_str());
            out.append(padding_collection.fancy_border_string.as_str());
        }
        proof {
            let l = choose|l: int|
                0 <= l && padding_collection.fancy_border_string@ == #[trigger] dashes(l).push(
                    '\n',
                );
            assert(out@ =~= formatted_with(
                config.opt_no_pretty,
                *snaps_and_live_set,
                padding_collection.size_padding_len as int,
                dashes(l).push('\n'),
                padding_collection.phantom_date_pad_str@,
                padding_collection.phantom_size_pad_str@,
            ));
        }
        out
    }
}

/// One line per path, nothing else: the machine-readable display.  The
/// delimiter is NUL when the caller asked for zero-separated output.
pub open spec fn raw_lines(s: Seq<PathData>, delim: char) -> Seq<char>
    decreases s.len(),
{
    if s.len() == 0 {
        Seq::empty()
    } else {
        raw_lines(s.drop_last(), delim) + path_display(s.last().path_buf@) + seq![delim]
    }
}

pub open spec fn raw_delimiter(opt_zeros: bool) -> char {
    if opt_zeros {
        '\0'
    } else {
        '\n'
    }
}

fn display_raw_set(s: &Vec<PathData>, zeros: bool) -> (r: String)
    ensures
        r@ == raw_lines(s@, raw_delimiter(zeros)),
{
    let mut out = String::new();
    let mut i: usize = 0;
    proof {
        assert(s@.subrange(0, 0) =~= Seq::<PathData>::empty());
    }
    while i < s.len()
        invariant
            i <= s@.len(),
            out@ == raw_lines(s@.subrange(0, i as int), raw_delimiter(zeros)),
        decreases s@.len() - i,
    {
        out.append(path_to_string(&s[i].path_buf).as_str());
        if zeros {
            out.append("\0");
            proof {
                reveal_strlit("\0");
            }
        } else {
            out.append("\n");
            proof {
                reveal_strlit("\n");
            }
        }
        proof {
            assert(s@.subrange(0, i + 1).drop_last() =~= s@.subrange(0, i as int));
            assert(s@.subrange(0, i + 1).last() == s@[i as int]);
            assert(out@ =~= raw_lines(s@.subrange(0, i + 1), raw_delimiter(zeros)));
        }
        i = i + 1;
    }
    proof {
        assert(s@.subrange(0, s@.len() as int) =~= s@);
    }
    out
}

/// The machine-readable display of one answer.
pub fn display_raw(config: &Config, snaps_and_live_set: &SnapsAndLiveSet) -> (r: String)
    ensures
        r@ == raw_lines(snaps_and_live_set.snaps@, raw_delimiter(config.opt_zeros)) + raw_lines(
            snaps_and_live_set.live@,
            raw_delimiter(config.opt_zeros),
        ),
{
    let mut out = display_raw_set(&snaps_and_live_set.snaps, config.opt_zeros);
    out.append(display_raw_set(&snaps_and_live_set.live, config.opt_zeros).as_str());
    out
}

/// Format one answer: machine-readable when raw or zero-separated output
/// was asked for, else the human display.
pub fn display_exec(config: &Config, snaps_and_live_set: &SnapsAndLiveSet) -> (r: String)
    ensures
        (config.opt_raw || config.opt_zeros) ==> r@ == raw_lines(
            snaps_and_live_set.snaps@,
            raw_delimiter(config.opt_zeros),
        ) + raw_lines(snaps_and_live_set.live@, raw_delimiter(config.opt_zeros)),
        !(config.opt_raw || config.opt_zeros) ==> exists|l: int|
            0 <= l && r@ == formatted_with(
                config.opt_no_pretty,
                *snaps_and_live_set,
                max_int(
                    max_size_len(snaps_and_live_set.snaps@),
                    max_size_len(snaps_and_live_set.live@),
                ),
                #[trigger] dashes(l).push('\n'),
                spaces(display_date_spec(0).len() as int),
                spaces(human_size_spec(0).len() as int),
            ),
{
    if config.opt_raw || config.opt_zeros {
        display_raw(config, snaps_and_live_set)
    } else {
        display_formatted(config, snaps_and_live_set)
    }
}

/// The plain rendering of one mount list: each mount tab-indented and
/// quoted.
pub open spec fn map_values_plain(vals: Seq<PathData>) -> Seq<char>
    decreases vals.len(),
{
    if vals.len() == 0 {
        Seq::empty()
    } else {
        map_values_plain(vals.drop_last()) + seq!['\t', '"'] + path_display(
            vals.last().path_buf@,
        ) + seq!['"']
    }
}

/// The plain rendering of the whole mount map: one line per input path.
pub open spec fn map_plain(entries: Seq<(PathData, Vec<PathData>)>) -> Seq<char>
    decreases entries.len(),
{
    if entries.len() == 0 {
        Seq::empty()
    } else {
        map_plain(entries.drop_last()) + path_display(entries.last().0.path_buf@) + seq![':']
            + map_values_plain(entries.last().1@) + seq!['\n']
    }
}

/// The pretty rendering of one mount list: the input path leads its first
/// line, later lines align under it.
pub open spec fn map_values_pretty(key: Seq<char>, vals: Seq<PathData>, pad: int) -> Seq<char>
    decreases vals.len(),
{
    if vals.len() == 0 {
        Seq::empty()
    } else {
        let lead = if vals.len() - 1 == 0 {
            pad_right(key, pad)
        } else {
            spaces(pad)
        };
        map_values_pretty(key, vals.drop_last(), pad) + lead + " : \""@ + path_display(
            vals.last().path_buf@,
        ) + seq!['"', '\n']
    }
}

/// The pretty rendering of the whole mount map.
pub open spec fn map_pretty(entries: Seq<(PathData, Vec<PathData>)>, pad: int) -> Seq<char>
    decreases entries.len(),
{
    if entries.len() == 0 {
        Seq::empty()
    } else {
        map_pretty(entries.drop_last(), pad) + map_values_pretty(
            path_display(entries.last().0.path_buf@),
            entries.last().1@,
            pad,
        )
    }
}

/// The widest rendered input path of the map.
pub open spec fn max_key_len(entries: Seq<(PathData, Vec<PathData>)>) -> int
    decreases entries.len(),
{
    if entries.len() == 0 {
        0
    } else {
        max_int(
            max_key_len(entries.drop_last()),
            path_display(entries.last().0.path_buf@).len() as int,
        )
    }
}

/// The widest rendered input path, at run time.
fn key_len_of(entries: &Vec<(PathData, Vec<PathData>)>) -> (r: usize)
    ensures
        r == max_key_len(entries@),
{
    let mut best: usize = 0;
    let mut i: usize = 0;
    proof {
        assert(entries@.subrange(0, 0) =~= Seq::<(PathData, Vec<PathData>)>::empty());
    }
    while i < entries.len()
        invariant
            i <= entries@.len(),
            best == max_key_len(entries@.subrange(0, i as int)),
        decreases entries@.len() - i,
    {
        let this_len = path_to_string(&entries[i].0.path_buf).as_str().unicode_len();
        if this_len > best {
            best = this_len;
        }
        proof {
            assert(entries@.subrange(0, i + 1).drop_last() =~= entries@.subrange(0, i as int));
            assert(entries@.subrange(0, i + 1).last() == entries@[i as int]);
        }
        i = i + 1;
    }
    proof {
        assert(entries@.subrange(0, entries@.len() as int) =~= entries@);
    }
    best
}

/// Render the mount map: plain lines when the caller asked for no pretty
/// output, else input paths padded to one column with their mounts quoted
/// beside and beneath them.
pub fn display_ordered_map(config: &Config, map: &Vec<(PathData, Vec<PathData>)>) -> (r: String)
    ensures
        config.opt_no_pretty ==> r@ == map_plain(map@),
        !config.opt_no_pretty ==> r@ == map_pretty(map@, max_key_len(map@)),
{
    if config.opt_no_pretty {
        let mut out = String::new();
        let mut i: usize = 0;
        proof {
            assert(map@.subrange(0, 0) =~= Seq::<(PathData, Vec<PathData>)>::empty());
        }
        while i < map.len()
            invariant
                i <= map@.len(),
                out@ == map_plain(map@.subrange(0, i as int)),
            decreases map@.len() - i,
        {
            out.append(path_to_string(&map[i].0.path_buf).as_str());
            out.append(":");
            let vals = &map[i].1;
            let mut k: usize = 0;
            proof {
                reveal_strlit(":");
                assert(vals@.subrange(0, 0) =~= Seq::<PathData>::empty());
                assert(out@ =~= map_plain(map@.subrange(0, i as int)) + path_display(
                    map@[i as int].0.path_buf@,
                ) + seq![':'] + map_values_plain(vals@.subrange(0, 0)));
            }
            while k < vals.len()
                invariant
                    k <= vals@.len(),
                    i < map@.len(),
                    vals == &map@[i as int].1,
                    out@ == map_plain(map@.subrange(0, i as int)) + path_display(
                        map@[i as int].0.path_buf@,
                    ) + seq![':'] + map_values_plain(vals@.subrange(0, k as int)),
                decreases vals@.len() - k,
            {
                out.append("\t");
                out.append("\"");
                out.append(path_to_string(&vals[k].path_buf).as_str());
                out.append("\"");
                proof {
                    reveal_strlit("\t");
                    reveal_strlit("\"");
                    assert(vals@.subrange(0, k + 1).drop_last() =~= vals@.subrange(0, k as int));
                    assert(vals@.subrange(0, k + 1).last() == vals@[k as int]);
                    assert(out@ =~= map_plain(map@.subrange(0, i as int)) + path_display(
                        map@[i as int].0.path_buf@,
                    ) + seq![':'] + map_values_plain(vals@.subrange(0, k + 1)));
                }
                k = k + 1;
            }
            out.append("\n");
            proof {
                reveal_strlit("\n");
                assert(vals@.subrange(0, vals@.len() as int) =~= vals@);
                assert(map@.subrange(0, i + 1).drop_last() =~= map@.subrange(0, i as int));
                assert(map@.subrange(0, i + 1).last() == map@[i as int]);
                assert(out@ =~= map_plain(map@.subrange(0, i + 1)));
            }
            i = i + 1;
        }
        proof {
            assert(map@.subrange(0, map@.len() as int) =~= map@);
        }
        out
    } else {
        let padding = key_len_of(map);
        let mut out = String::new();
        let mut i: usize = 0;
        proof {
            assert(map@.subrange(0, 0) =~= Seq::<(PathData, Vec<PathData>)>::empty());
        }
        while i < map.len()
            invariant
                i <= map@.len(),
                padding == max_key_len(map@),
                out@ == map_pretty(map@.subrange(0, i as int), padding as int),
            decreases map@.len() - i,
        {
            let key_string = path_to_string(&map[i].0.path_buf);
            let key_len = key_string.as_str().unicode_len();
            let vals = &map[i].1;
            let ghost entry_base = out@;
            let mut k: usize = 0;
            while k < vals.len()
                invariant
                    k <= vals@.len(),
                    i < map@.len(),
                    vals == &map@[i as int].1,
                    padding == max_key_len(map@),
                    key_string@ == path_display(map@[i as int].0.path_buf@),
                    key_len == key_string@.len(),
                    out@ == entry_base + map_values_pretty(
                        key_string@,
                        vals@.subrange(0, k as int),
                        padding as int,
                    ),
                decreases vals@.len() - k,
            {
                if k == 0 {
                    out.append(key_string.as_str());
                    if key_len < padding {
                        out.append(make_spaces(padding - key_len).as_str());
                    }
                    proof {
                        lemma_spaces_len(padding - key_string@.len());
                        assert(out@ =~= entry_base + pad_right(key_string@, padding as int));
                    }
                } else {
                    out.append(make_spaces(padding).as_str());
                }
                out.append(" : ");
                out.append("\"");
                out.append(path_to_string(&vals[k].path_buf).as_str());
                out.append("\"");
                out.append("\n");
                proof {
                    reveal_strlit(" : ");
                    reveal_strlit("\"");
                    reveal_strlit("\n");
                    reveal_strlit(" : \"");
                    assert(vals@.subrange(0, k + 1).drop_last() =~= vals@.subrange(0, k as int));
                    assert(vals@.subrange(0, k + 1).last() == vals@[k as int]);
                    assert(" : \""@ =~= " : "@ + "\""@);
                    assert(out@ =~= entry_base + map_values_pretty(
                        key_string@,
                        vals@.subrange(0, k + 1),
                        padding as int,
                    ));
                }
                k = k + 1;
            }
            proof {
                assert(vals@.subrange(0, vals@.len() as int) =~= vals@);
                assert(map@.subrange(0, i + 1).drop_last() =~= map@.subrange(0, i as int));
                assert(map@.subrange(0, i + 1).last() == map@[i as int]);
                assert(out@ =~= map_pretty(map@.subrange(0, i + 1), padding as int));
            }
            i = i + 1;
        }
        proof {
            assert(map@.subrange(0, map@.len() as int) =~= map@);
        }
        out
    }
}

/// The machine-readable rendering of the mount map: every candidate mount
/// of every input, one per line.
pub open spec fn mounts_raw(entries: Seq<(PathData, Vec<PathData>)>, delim: char) -> Seq<char>
    decreases entries.len(),
{
    if entries.len() == 0 {
        Seq::empty()
    } else {
        mounts_raw(entries.drop_last(), delim) + raw_lines(entries.last().1@, delim)
    }
}

/// Format a mounts-for-files answer: raw mount paths when asked, else the
/// aligned map.  The phantom inputs it carries are the caller's to
/// diagnose.
pub fn display_mounts_for_files(config: &Config, mounts_for_files: &MountsForFiles) -> (r: String)
    ensures
        (config.opt_raw || config.opt_zeros) ==> r@ == mounts_raw(
            mounts_for_files.mounts@,
            raw_delimiter(config.opt_zeros),
        ),
        !(config.opt_raw || config.opt_zeros) && config.opt_no_pretty ==> r@ == map_plain(
            mounts_for_files.mounts@,
        ),
        !(config.opt_raw || config.opt_zeros) && !config.opt_no_pretty ==> r@ == map_pretty(
            mounts_for_files.mounts@,
            max_key_len(mounts_for_files.mounts@),
        ),
{
    if config.opt_raw || config.opt_zeros {
        let entries = &mounts_for_files.mounts;
        let mut out = String::new();
        let mut i: usize = 0;
        proof {
            assert(entries@.subrange(0, 0) =~= Seq::<(PathData, Vec<PathData>)>::empty());
        }
        while i < entries.len()
            invariant
                i <= entries@.len(),
                out@ == mounts_raw(entries@.subrange(0, i as int), raw_delimiter(config.opt_zeros)),
            decreases entries@.len() - i,
        {
            out.append(display_raw_set(&entries[i].1, config.opt_zeros).as_str());
            proof {
                assert(entries@.subrange(0, i + 1).drop_last() =~= entries@.subrange(0, i as int));
                assert(entries@.subrange(0, i + 1).last() == entries@[i as int]);
                assert(out@ =~= mounts_raw(
                    entries@.subrange(0, i + 1),
                    raw_delimiter(config.opt_zeros),
                ));
            }
            i = i + 1;
        }
        proof {
            assert(entries@.subrange(0, entries@.len() as int) =~= entries@);
        }
        out
    } else {
        display_ordered_map(config, &mounts_for_files.mounts)
    }
}

} // verus!
