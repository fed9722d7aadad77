use vstd::prelude::*;
use vstd::string::StringSliceAdditionalSpecFns;

use crate::buffer::Buffer;

verus! {

pub const BLANK: u8 = 32;

/// `line` cut or padded with blanks to `width` bytes.
pub open spec fn info_row(line: Seq<u8>, width: nat) -> Seq<u8> {
    Seq::new(width, |x: int| if x < line.len() { line[x] } else { BLANK })
}

/// Writes `line` into the bottom row of `char_buffer`, cut or padded with
/// blanks to the buffer's width.
pub fn add_info_line_to_char_buffer(char_buffer: &mut Buffer<u8>, line: &str)
    requires
        old(char_buffer).wf(),
        old(char_buffer).height >= 1,
    ensures
        final(char_buffer).wf(),
        final(char_buffer).width == old(char_buffer).width,
        final(char_buffer).height == old(char_buffer).height,
        final(char_buffer).values@ == old(char_buffer).values@.take(
            old(char_buffer).width * (old(char_buffer).height - 1),
        ) + info_row(line.spec_bytes(), old(char_buffer).width as nat),
{
    let chars: &[u8] = line.as_bytes();
    let width = char_buffer.width;
    let y = char_buffer.height - 1;
    let ghost base = width * y;
    let ghost before = char_buffer.values@;
    let ghost row = info_row(chars@, width as nat);
    assert(base + width == width * char_buffer.height) by (nonlinear_arith)
        requires
            base == width * y,
            y == char_buffer.height - 1,
    ;
    assert(0 <= base) by (nonlinear_arith)
        requires
            base == width * y,
            y >= 0,
            width >= 0,
    ;
    let mut x: usize = 0;
    while x < width
        invariant
            char_buffer.wf(),
            char_buffer.width == width,
            char_buffer.height == y + 1,
            base == width * y,
            base + width == char_buffer.values@.len(),
            0 <= base,
            before.len() == char_buffer.values@.len(),
            row == info_row(chars@, width as nat),
            x <= width,
            char_buffer.values@ == before.take(base) + row.take(x as int) + before.skip(base + x),
        decreases width - x,
    {
        let c = if x < chars.len() {
            chars[x]
        } else {
            BLANK
        };
        let ghost prior = char_buffer.values@;
        let written = char_buffer.set(x, y, c);
        assert(written is Ok);
        assert(char_buffer.values@ == prior.update(base + x, c));
        x = x + 1;
        assert(char_buffer.values@ =~= before.take(base) + row.take(x as int) + before.skip(
            base + x,
        ));
    }
    assert(char_buffer.values@ =~= before.take(base) + row);
}

/// A cell whose character changed, with its new character.
#[derive(Clone, Copy, Debug, PartialEq, Eq, Structural)]
pub struct CellChange {
    pub character: u8,
    pub row: usize,
    pub column: usize,
}

/// The cells among the first `n` of a grid `width` cells wide whose character
/// in `cur` differs from the one in `prev`, in row-major order.
pub open spec fn changes(cur: Seq<u8>, prev: Seq<u8>, width: int, n: int) -> Seq<CellChange>
    decreases n,
{
    if n <= 0 {
        seq![]
    } else {
        let rest = changes(cur, prev, width, n - 1);
        let i = n - 1;
        if cur[i] != prev[i] {
            rest.push(
                CellChange { character: cur[i], row: (i / width) as usize, column: (i % width) as usize },
            )
        } else {
            rest
        }
    }
}

/// The cells of `char_buffer` that differ from `prev_char_buffer`, which is to
/// be at least as large; these are what redrawing the terminal has to write.
pub fn changed_cells(char_buffer: &Buffer<u8>, prev_char_buffer: &Buffer<u8>) -> (r: Vec<
    CellChange,
>)
    requires
        char_buffer.wf(),
        prev_char_buffer.values@.len() >= char_buffer.values@.len(),
    ensures
        r@ == changes(
            char_buffer.values@,
            prev_char_buffer.values@,
            char_buffer.width as int,
            char_buffer.values@.len() as int,
        ),
{
    let mut out: Vec<CellChange> = Vec::new();
    let n = char_buffer.values.len();
    let width = char_buffer.width;
    let mut i: usize = 0;
    while i < n
        invariant
            n == char_buffer.values@.len(),
            n == width * char_buffer.height,
            width == char_buffer.width,
            prev_char_buffer.values@.len() >= n,
            i <= n,
            out@ == changes(char_buffer.values@, prev_char_buffer.values@, width as int, i as int),
        decreases n - i,
    {
        let c = char_buffer.values[i];
        if c != prev_char_buffer.values[i] {
            assert(width > 0) by (nonlinear_arith)
                requires
                    n == width * char_buffer.height,
                    i < n,
            ;
            out.push(CellChange { character: c, row: i / width, column: i % width });
        }
        i = i + 1;
    }
    out
}

} // verus!
