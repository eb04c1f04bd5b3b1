//! PPM file format logic: encodes a canvas of quantized pixels as the
//! plain-text `P3` format, keeping every text line at most 70 characters
//! wide.
//!
//! Color quantization — clamping the renderer's scalar channels and
//! scaling them to `0..=255` — happens before the pixels reach this
//! module.

use vstd::prelude::*;
use vstd::pervasive::unreached;
use vstd::string::StringExecFns;
use crate::canvas::Canvas;

verus! {

/// One canvas pixel after color quantization: each channel already
/// clamped and scaled to `0..=255`.
#[derive(Copy, Clone, Debug, PartialEq, Eq, Structural)]
pub struct Rgb {
    /// Red channel.
    pub red: u8,
    /// Green channel.
    pub green: u8,
    /// Blue channel.
    pub blue: u8,
}

/// The decimal digit `d` as a character.
pub open spec fn digit_char(d: int) -> char {
    if d == 0 {
        '0'
    } else if d == 1 {
        '1'
    } else if d == 2 {
        '2'
    } else if d == 3 {
        '3'
    } else if d == 4 {
        '4'
    } else if d == 5 {
        '5'
    } else if d == 6 {
        '6'
    } else if d == 7 {
        '7'
    } else if d == 8 {
        '8'
    } else {
        '9'
    }
}

/// The usual decimal rendering of `n`, most significant digit first, no
/// sign and no leading zeros.
pub open spec fn dec_digits(n: int) -> Seq<char>
    decreases n,
{
    if n <= 9 {
        seq![digit_char(n)]
    } else {
        dec_digits(n / 10).push(digit_char(n % 10))
    }
}

/// One color channel as it stands in the file: its decimal value and a
/// trailing space.
pub open spec fn channel_chunk(v: int) -> Seq<char> {
    dec_digits(v) + seq![' ']
}

/// The channel values of a pixel row in file order: red, green, blue of
/// each pixel in turn.
pub open spec fn row_channels(row: Seq<Rgb>) -> Seq<int> {
    Seq::new(
        3 * row.len(),
        |i: int|
            if i % 3 == 0 {
                row[i / 3].red as int
            } else if i % 3 == 1 {
                row[i / 3].green as int
            } else {
                row[i / 3].blue as int
            },
    )
}

/// Appends one channel chunk to the row text, breaking the line first
/// whenever the chunk would run the current line past 70 characters.
/// The state is the text so far and the length of its last line.
pub open spec fn wrap_step(state: (Seq<char>, int), v: int) -> (Seq<char>, int) {
    let chunk = channel_chunk(v);
    let grown = state.1 + chunk.len();
    if grown > 70 {
        (state.0 + seq!['\n'] + chunk, chunk.len() as int)
    } else {
        (state.0 + chunk, grown)
    }
}

/// The line-wrapped text of a whole channel sequence, starting from an
/// empty line.
pub open spec fn wrapped_channels(chs: Seq<int>) -> (Seq<char>, int) {
    chs.fold_left(
        (Seq::<char>::empty(), 0int),
        |state: (Seq<char>, int), v: int| wrap_step(state, v),
    )
}

/// The text of one pixel row: its wrapped channels and a final newline.
pub open spec fn row_text(row: Seq<Rgb>) -> Seq<char> {
    wrapped_channels(row_channels(row)).0 + seq!['\n']
}

/// The text of all pixel rows, top row first.
pub open spec fn rows_text(rows: Seq<Seq<Rgb>>) -> Seq<char>
    decreases rows.len(),
{
    if rows.len() == 0 {
        Seq::empty()
    } else {
        rows_text(rows.drop_last()) + row_text(rows.last())
    }
}

/// The complete file: the `P3` header with the canvas dimensions and
/// the maximum channel value, then the pixel rows.
pub open spec fn ppm_text(rows: Seq<Seq<Rgb>>, width: int, height: int) -> Seq<char> {
    seq!['P', '3', '\n'] + dec_digits(width) + seq![' '] + dec_digits(height) + seq![
        '\n',
        '2',
        '5',
        '5',
        '\n',
    ] + rows_text(rows)
}

fn push_digit(s: &mut String, d: u8)
    requires
        d <= 9,
    ensures
        final(s)@ == old(s)@.push(digit_char(d as int)),
{
    proof {
        reveal_strlit("0");
        reveal_strlit("1");
        reveal_strlit("2");
        reveal_strlit("3");
        reveal_strlit("4");
        reveal_strlit("5");
        reveal_strlit("6");
        reveal_strlit("7");
        reveal_strlit("8");
        reveal_strlit("9");
    }
    if d == 0 {
        s.append("0");
    } else if d == 1 {
        s.append("1");
    } else if d == 2 {
        s.append("2");
    } else if d == 3 {
        s.append("3");
    } else if d == 4 {
        s.append("4");
    } else if d == 5 {
        s.append("5");
    } else if d == 6 {
        s.append("6");
    } else if d == 7 {
        s.append("7");
    } else if d == 8 {
        s.append("8");
    } else {
        s.append("9");
    }
    proof {
        assert(s@ =~= old(s)@.push(digit_char(d as int)));
    }
}

/// Appends the decimal rendering of `n`.
fn write_number(s: &mut String, n: usize)
    ensures
        final(s)@ == old(s)@ + dec_digits(n as int),
    decreases n,
{
    if n <= 9 {
        push_digit(s, n as u8);
        proof {
            assert(s@ =~= old(s)@ + dec_digits(n as int));
        }
    } else {
        write_number(s, n / 10);
        push_digit(s, (n % 10) as u8);
        proof {
            assert(s@ =~= old(s)@ + dec_digits(n as int));
        }
    }
}

proof fn lemma_dec_digits_len(v: int)
    requires
        0 <= v <= 255,
    ensures
        dec_digits(v).len() == if v >= 100 {
            3int
        } else if v >= 10 {
            2int
        } else {
            1int
        },
    decreases v,
{
    if v >= 10 {
        lemma_dec_digits_len(v / 10);
    }
}

/// Appends one channel to the row text, wrapping the line as
/// [`wrap_step`] says, and returns the new length of the last line.
fn write_channel(s: &mut String, len: usize, v: u8) -> (new_len: usize)
    requires
        len <= 70,
    ensures
        (final(s)@, new_len as int) == wrap_step((old(s)@, len as int), v as int),
        new_len <= 70,
{
    proof {
        lemma_dec_digits_len(v as int);
        reveal_strlit("\n");
        reveal_strlit(" ");
    }
    let chunk_len: usize = if v >= 100 {
        4
    } else if v >= 10 {
        3
    } else {
        2
    };
    let grown = len + chunk_len;
    if grown > 70 {
        s.append("\n");
        write_number(s, v as usize);
        s.append(" ");
        proof {
            assert(s@ =~= old(s)@ + seq!['\n'] + channel_chunk(v as int));
        }
        chunk_len
    } else {
        write_number(s, v as usize);
        s.append(" ");
        proof {
            assert(s@ =~= old(s)@ + channel_chunk(v as int));
        }
        grown
    }
}

/// Creates a PPM file format string from the canvas that can then be
/// written to a file.
pub fn write_to_ppm(canvas: Canvas<Rgb>) -> (r: String)
    requires
        canvas.wf(),
    ensures
        r@ == ppm_text(canvas@, canvas.spec_width() as int, canvas.spec_height() as int),
{
    proof {
        reveal_strlit("P3\n");
        reveal_strlit(" ");
        reveal_strlit("\n255");
        reveal_strlit("\n");
    }
    let mut header = String::new();
    header.append("P3\n");
    write_number(&mut header, canvas.width());
    header.append(" ");
    write_number(&mut header, canvas.height());
    header.append("\n255");
    proof {
        assert(header@ =~= seq!['P', '3', '\n'] + dec_digits(canvas.spec_width() as int) + seq![
            ' ',
        ] + dec_digits(canvas.spec_height() as int) + seq!['\n', '2', '5', '5']);
    }

    let mut body = String::new();
    body.append("\n");
    proof {
        assert(body@ =~= seq!['\n']);
    }

    let height = canvas.height();
    let width = canvas.width();
    let mut y: usize = 0;
    while y < height
        invariant
            canvas.wf(),
            height == canvas.spec_height(),
            width == canvas.spec_width(),
            y <= height,
            body@ == seq!['\n'] + rows_text(canvas@.take(y as int)),
        decreases height - y,
    {
        proof {
            reveal_strlit("\n");
        }
        let ghost row_view = canvas@[y as int];
        let ghost chs = row_channels(row_view);
        let mut row = String::new();
        let mut len: usize = 0;
        let mut x: usize = 0;
        while x < width
            invariant
                canvas.wf(),
                height == canvas.spec_height(),
                width == canvas.spec_width(),
                y < height,
                x <= width,
                row_view == canvas@[y as int],
                chs == row_channels(row_view),
                len <= 70,
                (row@, len as int) == wrapped_channels(chs.take(3 * x as int)),
            decreases width - x,
        {
            let pixel = match canvas.pixel_at(x, y) {
                Ok(p) => p,
                Err(_) => unreached(),
            };
            proof {
                lemma_wrapped_channels_step(chs, 3 * x as int);
                assert(chs[3 * x as int] == pixel.red as int);
            }
            let len1 = write_channel(&mut row, len, pixel.red);
            proof {
                lemma_wrapped_channels_step(chs, 3 * x as int + 1);
                assert(chs[3 * x as int + 1] == pixel.green as int);
            }
            let len2 = write_channel(&mut row, len1, pixel.green);
            proof {
                lemma_wrapped_channels_step(chs, 3 * x as int + 2);
                assert(chs[3 * x as int + 2] == pixel.blue as int);
            }
            len = write_channel(&mut row, len2, pixel.blue);
            x += 1;
        }
        proof {
            assert(chs.take(3 * width as int) =~= chs);
        }
        row.append("\n");
        body.append(row.as_str());
        proof {
            assert(canvas@.take(y as int + 1).drop_last() =~= canvas@.take(y as int));
            assert(canvas@.take(y as int + 1).last() == row_view);
            assert(body@ =~= seq!['\n'] + rows_text(canvas@.take(y as int + 1)));
        }
        y += 1;
    }
    proof {
        assert(canvas@.take(height as int) =~= canvas@);
    }
    header.append(body.as_str());
    proof {
        assert(header@ =~= ppm_text(
            canvas@,
            canvas.spec_width() as int,
            canvas.spec_height() as int,
        ));
    }
    header
}

/// One `fold_left` step of the wrapped-channel text: taking one more
/// channel extends the text by that channel's wrap step.
proof fn lemma_wrapped_channels_step(chs: Seq<int>, k: int)
    requires
        0 <= k < chs.len(),
    ensures
        wrapped_channels(chs.take(k + 1)) == wrap_step(wrapped_channels(chs.take(k)), chs[k]),
{
    let pre = chs.take(k);
    let post = chs.take(k + 1);
    assert(post.drop_last() =~= pre);
    assert(post.last() == chs[k]);
}

} // verus!
