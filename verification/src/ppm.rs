//! The textual image format: a short header, then the pixels as decimal
//! numbers, one line for each row of the image.
use vstd::prelude::*;

verus! {

/// A pixel as it is written: three channels from 0 to 255.
#[derive(Clone, Copy, Debug, PartialEq, Eq, Structural)]
pub struct Rgb {
    pub red: u8,
    pub green: u8,
    pub blue: u8,
}

/// An image to be written: the two numbers of its header and its rows, the
/// top row first and each row from left to right.
#[derive(Debug)]
pub struct PPM {
    pub image_width: i32,
    pub image_height: i32,
    pub image_data: Vec<Vec<Rgb>>,
}

/// The channel value that a whole number is written as: the number itself
/// from 0 to 255, 0 for what is below and 255 for what is above.
pub open spec fn saturated(value: int) -> u8 {
    if value < 0 {
        0
    } else if value > 255 {
        255
    } else {
        value as u8
    }
}

impl Rgb {
    /// The pixel for three channel values, each cut down to the range from
    /// 0 to 255.
    pub fn new(red: i32, green: i32, blue: i32) -> (pixel: Rgb)
        ensures
            pixel == (Rgb {
                red: saturated(red as int),
                green: saturated(green as int),
                blue: saturated(blue as int),
            }),
    {
        Rgb { red: saturate(red), green: saturate(green), blue: saturate(blue) }
    }
}

fn saturate(value: i32) -> (channel: u8)
    ensures
        channel == saturated(value as int),
{
    if value < 0 {
        0
    } else if value > 255 {
        255
    } else {
        value as u8
    }
}

/// The byte of a space.
pub const SPACE: u8 = 32;

/// The byte that ends a line.
pub const NEWLINE: u8 = 10;

/// The decimal digits of a natural number, the most significant first,
/// without leading zeros.
pub open spec fn digits(n: nat) -> Seq<u8>
    decreases n,
{
    if n < 10 {
        seq![(48 + n) as u8]
    } else {
        digits(n / 10).push((48 + n % 10) as u8)
    }
}

/// A whole number in decimal, with a minus sign in front if it is negative.
pub open spec fn decimal(n: int) -> Seq<u8> {
    if n < 0 {
        seq![45u8] + digits((-n) as nat)
    } else {
        digits(n as nat)
    }
}

/// A pixel as text: its red, green and blue channels with a space between.
pub open spec fn pixel_text(pixel: Rgb) -> Seq<u8> {
    decimal(pixel.red as int) + seq![SPACE] + decimal(pixel.green as int) + seq![SPACE] + decimal(
        pixel.blue as int,
    )
}

/// The pixels of a row as text, with a space between neighbours.
pub open spec fn row_text(row: Seq<Rgb>) -> Seq<u8>
    decreases row.len(),
{
    if row.len() == 0 {
        Seq::empty()
    } else if row.len() == 1 {
        pixel_text(row[0])
    } else {
        row_text(row.drop_last()) + seq![SPACE] + pixel_text(row.last())
    }
}

/// Rows as text: each row on a line of its own.
pub open spec fn rows_text(rows: Seq<Seq<Rgb>>) -> Seq<u8>
    decreases rows.len(),
{
    if rows.len() == 0 {
        Seq::empty()
    } else {
        rows_text(rows.drop_last()) + row_text(rows.last()) + seq![NEWLINE]
    }
}

/// The header: the line `P3`, a line with the width and the height, and the
/// line `255`, the largest value of a channel.
pub open spec fn header_text(width: int, height: int) -> Seq<u8> {
    seq![80u8, 51u8, NEWLINE] + decimal(width) + seq![SPACE] + decimal(height) + seq![
        NEWLINE,
        50u8,
        53u8,
        53u8,
        NEWLINE,
    ]
}

impl PPM {
    /// The rows of the image as sequences of pixels.
    pub open spec fn rows(self) -> Seq<Seq<Rgb>> {
        Seq::new(self.image_data@.len(), |i: int| self.image_data@[i]@)
    }

    /// The bytes of the image file.
    pub open spec fn text(self) -> Seq<u8> {
        header_text(self.image_width as int, self.image_height as int) + rows_text(self.rows())
    }

    /// Writes the image out as the bytes of its file.
    ///
    /// The header carries `image_width` and `image_height` as they are; the
    /// rows that follow are those of `image_data`, however many there are
    /// and however long each is.
    pub fn render(&self) -> (image: Vec<u8>)
        ensures
            image@ == self.text(),
    {
        let mut image: Vec<u8> = Vec::new();
        image.push(80u8);
        image.push(51u8);
        image.push(NEWLINE);
        push_decimal(&mut image, self.image_width);
        image.push(SPACE);
        push_decimal(&mut image, self.image_height);
        image.push(NEWLINE);
        image.push(50u8);
        image.push(53u8);
        image.push(53u8);
        image.push(NEWLINE);
        assert(image@ =~= header_text(self.image_width as int, self.image_height as int));
        let ghost header = image@;
        let mut y: usize = 0;
        while y < self.image_data.len()
            invariant
                y <= self.image_data.len(),
                image@ == header + rows_text(self.rows().take(y as int)),
            decreases self.image_data.len() - y,
        {
            let ghost done = image@;
            push_row(&mut image, &self.image_data[y]);
            image.push(NEWLINE);
            proof {
                let upto = self.rows().take(y + 1);
                assert(upto.drop_last() =~= self.rows().take(y as int));
                assert(upto.last() == self.image_data@[y as int]@);
                assert(image@ =~= header + rows_text(upto));
            }
            y = y + 1;
        }
        assert(self.rows().take(y as int) =~= self.rows());
        image
    }
}

/// Appends the decimal digits of a number.
fn push_digits(out: &mut Vec<u8>, n: u32)
    ensures
        final(out)@ == old(out)@ + digits(n as nat),
    decreases n,
{
    if n < 10 {
        out.push(48u8 + (n as u8));
        assert(out@ =~= old(out)@ + digits(n as nat));
    } else {
        push_digits(out, n / 10);
        out.push(48u8 + ((n % 10) as u8));
        assert(out@ =~= old(out)@ + digits(n as nat));
    }
}

/// Appends a whole number in decimal.
fn push_decimal(out: &mut Vec<u8>, n: i32)
    ensures
        final(out)@ == old(out)@ + decimal(n as int),
{
    if n < 0 {
        out.push(45u8);
        let magnitude: i64 = -(n as i64);
        push_digits(out, magnitude as u32);
        assert(out@ =~= old(out)@ + decimal(n as int));
    } else {
        push_digits(out, n as u32);
    }
}

/// Appends a pixel as text.
fn push_pixel(out: &mut Vec<u8>, pixel: Rgb)
    ensures
        final(out)@ == old(out)@ + pixel_text(pixel),
{
    push_digits(out, pixel.red as u32);
    out.push(SPACE);
    push_digits(out, pixel.green as u32);
    out.push(SPACE);
    push_digits(out, pixel.blue as u32);
    assert(out@ =~= old(out)@ + pixel_text(pixel));
}

/// Appends a row as text, without the end of its line.
fn push_row(out: &mut Vec<u8>, row: &Vec<Rgb>)
    ensures
        final(out)@ == old(out)@ + row_text(row@),
{
    let mut x: usize = 0;
    while x < row.len()
        invariant
            x <= row.len(),
            out@ == old(out)@ + row_text(row@.take(x as int)),
        decreases row.len() - x,
    {
        if x > 0 {
            out.push(SPACE);
        }
        push_pixel(out, row[x]);
        proof {
            let upto = row@.take(x + 1);
            assert(upto.drop_last() =~= row@.take(x as int));
            assert(upto.last() == row@[x as int]);
            assert(out@ =~= old(out)@ + row_text(upto));
        }
        x = x + 1;
    }
    assert(row@.take(x as int) =~= row@);
}

} // verus!
