//! The virtual canvas: a 2D grid of styled cells addressed by coordinate,
//! with a bounds-checked copy that silently skips out-of-range cells. A
//! scrolled window of an off-screen canvas is copied onto the screen
//! canvas with `blit`.

use vstd::prelude::*;

verus! {

/// A rectangle of cells: position and size.
#[derive(Debug, Clone, Copy, PartialEq, Eq, Structural)]
pub struct Rect {
    pub x: u16,
    pub y: u16,
    pub width: u16,
    pub height: u16,
}

impl Rect {
    /// The rectangle stays within coordinate range.
    pub open spec fn wf(&self) -> bool {
        self.x + self.width <= u16::MAX && self.y + self.height <= u16::MAX
    }

    /// Whether the point `(x, y)` lies inside the rectangle.
    pub open spec fn spec_contains(&self, x: int, y: int) -> bool {
        self.x <= x < self.x + self.width && self.y <= y < self.y + self.height
    }

    /// A rectangle from position and size.
    pub fn new(x: u16, y: u16, width: u16, height: u16) -> (r: Rect)
        requires
            x + width <= u16::MAX,
            y + height <= u16::MAX,
        ensures
            r == (Rect { x, y, width, height }),
            r.wf(),
    {
        Rect { x, y, width, height }
    }
}

/// The palette the client draws with.
#[derive(Debug, Clone, Copy, PartialEq, Eq, Structural)]
pub enum Color {
    Reset,
    Cyan,
    LightCyan,
    Yellow,
    DarkGray,
}

/// How a cell is drawn.
#[derive(Debug, Clone, Copy, PartialEq, Eq, Structural)]
pub struct CellStyle {
    pub fg: Color,
    pub bold: bool,
    pub reversed: bool,
}

impl CellStyle {
    /// The unstyled default.
    pub fn plain() -> (r: CellStyle)
        ensures
            r == (CellStyle { fg: Color::Reset, bold: false, reversed: false }),
    {
        CellStyle { fg: Color::Reset, bold: false, reversed: false }
    }
}

/// One cell: its character and its style.
#[derive(Debug, Clone, Copy, PartialEq, Eq, Structural)]
pub struct Cell {
    pub symbol: char,
    pub style: CellStyle,
}

/// The blank cell an empty canvas is filled with.
pub open spec fn blank_cell() -> Cell {
    Cell { symbol: ' ', style: CellStyle { fg: Color::Reset, bold: false, reversed: false } }
}

/// A grid of cells covering the area `area`, stored row by row.
#[derive(Debug, Clone)]
pub struct Canvas {
    pub area: Rect,
    pub cells: Vec<Cell>,
}

impl Canvas {
    /// The store holds exactly one cell per point of the area.
    pub open spec fn wf(&self) -> bool {
        &&& self.area.wf()
        &&& self.cells@.len() == self.area.width as int * self.area.height as int
    }

    /// Where the cell of the point `(x, y)` sits in the row-major store.
    pub open spec fn idx_of(&self, x: int, y: int) -> int {
        (y - self.area.y) * self.area.width + (x - self.area.x)
    }

    /// The cell at the point `(x, y)` of the area.
    pub open spec fn cell_at(&self, x: int, y: int) -> Cell {
        self.cells@[self.idx_of(x, y)]
    }

    proof fn lemma_idx_in_range(&self, x: int, y: int)
        requires
            self.wf(),
            self.area.spec_contains(x, y),
        ensures
            0 <= self.idx_of(x, y) < self.cells@.len(),
            0 <= (y - self.area.y) * self.area.width as int <= self.idx_of(x, y),
            self.idx_of(x, y) < 0xffff * 0xffff,
    {
        let rx = x - self.area.x;
        let ry = y - self.area.y;
        assert(0 <= rx < self.area.width);
        assert(0 <= ry < self.area.height);
        assert(ry * self.area.width + rx < self.area.width as int * self.area.height as int)
            by (nonlinear_arith)
            requires
                0 <= rx < self.area.width,
                0 <= ry < self.area.height,
        ;
        assert(0 <= ry * self.area.width) by (nonlinear_arith)
            requires
                0 <= ry,
                0 <= self.area.width,
        ;
        assert(self.area.width as int * self.area.height as int <= 0xffff * 0xffff)
            by (nonlinear_arith)
            requires
                0 <= self.area.width <= 0xffff,
                0 <= self.area.height <= 0xffff,
        ;
    }

    /// Distinct points of the area have distinct positions in the store.
    proof fn lemma_idx_injective(&self, x1: int, y1: int, x2: int, y2: int)
        requires
            self.wf(),
            self.area.spec_contains(x1, y1),
            self.area.spec_contains(x2, y2),
            self.idx_of(x1, y1) == self.idx_of(x2, y2),
        ensures
            x1 == x2 && y1 == y2,
    {
        let w = self.area.width as int;
        assert((y1 - self.area.y) * w + (x1 - self.area.x) == (y2 - self.area.y) * w + (x2
            - self.area.x) ==> y1 == y2 && x1 == x2) by (nonlinear_arith)
            requires
                0 <= x1 - self.area.x < w,
                0 <= x2 - self.area.x < w,
                0 <= y1 - self.area.y,
                0 <= y2 - self.area.y,
        ;
    }

    /// A canvas covering `area`, every cell blank.
    pub fn empty(area: Rect) -> (r: Canvas)
        requires
            area.wf(),
        ensures
            r.wf(),
            r.area == area,
            forall|x: int, y: int|
                area.spec_contains(x, y) ==> #[trigger] r.cell_at(x, y) == blank_cell(),
    {
        proof {
            assert(0 <= area.width as int * area.height as int <= 0xffff * 0xffff)
                by (nonlinear_arith)
                requires
                    0 <= area.width <= 0xffff,
                    0 <= area.height <= 0xffff,
            ;
        }
        let n: usize = (area.width as usize) * (area.height as usize);
        let mut cells: Vec<Cell> = Vec::new();
        let mut i: usize = 0;
        while i < n
            invariant
                i <= n,
                cells@.len() == i,
                forall|k: int| 0 <= k < i ==> #[trigger] cells@[k] == blank_cell(),
            decreases n - i,
        {
            cells.push(
                Cell {
                    symbol: ' ',
                    style: CellStyle { fg: Color::Reset, bold: false, reversed: false },
                },
            );
            i = i + 1;
        }
        let r = Canvas { area, cells };
        proof {
            assert forall|x: int, y: int| area.spec_contains(x, y) implies #[trigger] r.cell_at(
                x,
                y,
            ) == blank_cell() by {
                r.lemma_idx_in_range(x, y);
            }
        }
        r
    }

    /// The cell at `pos`, if `pos` lies inside the area.
    pub fn cell(&self, pos: (u16, u16)) -> (r: Option<&Cell>)
        requires
            self.wf(),
        ensures
            match r {
                Some(c) => self.area.spec_contains(pos.0 as int, pos.1 as int) && *c
                    == self.cell_at(pos.0 as int, pos.1 as int),
                None => !self.area.spec_contains(pos.0 as int, pos.1 as int),
            },
    {
        let (x, y) = pos;
        if x >= self.area.x && x < self.area.x + self.area.width && y >= self.area.y && y
            < self.area.y + self.area.height {
            proof {
                self.lemma_idx_in_range(x as int, y as int);
            }
            let idx: usize = (y - self.area.y) as usize * self.area.width as usize + (x
                - self.area.x) as usize;
            proof {
                assert((y - self.area.y) as usize * self.area.width as usize + (x - self.area.x)
                    as usize == self.idx_of(x as int, y as int)) by (nonlinear_arith)
                    requires
                        self.area.x <= x,
                        self.area.y <= y,
                ;
            }
            Some(&self.cells[idx])
        } else {
            None
        }
    }

    /// Writes one cell at `(x, y)`; a point outside the area is skipped
    /// silently.
    pub fn put(&mut self, x: u16, y: u16, cell: Cell)
        requires
            old(self).wf(),
        ensures
            final(self).wf(),
            final(self).area == old(self).area,
            forall|xx: int, yy: int|
                old(self).area.spec_contains(xx, yy) ==> #[trigger] final(self).cell_at(xx, yy)
                    == (if xx == x as int && yy == y as int {
                    cell
                } else {
                    old(self).cell_at(xx, yy)
                }),
    {
        if x >= self.area.x && x < self.area.x + self.area.width && y >= self.area.y && y
            < self.area.y + self.area.height {
            proof {
                self.lemma_idx_in_range(x as int, y as int);
            }
            let idx: usize = (y - self.area.y) as usize * self.area.width as usize + (x
                - self.area.x) as usize;
            proof {
                assert((y - self.area.y) as usize * self.area.width as usize + (x - self.area.x)
                    as usize == self.idx_of(x as int, y as int)) by (nonlinear_arith)
                    requires
                        self.area.x <= x,
                        self.area.y <= y,
                ;
            }
            self.cells.set(idx, cell);
            proof {
                let post = *self;
                assert forall|xx: int, yy: int|
                    old(self).area.spec_contains(xx, yy) implies #[trigger] post.cell_at(xx, yy)
                    == (if xx == x as int && yy == y as int {
                    cell
                } else {
                    old(self).cell_at(xx, yy)
                }) by {
                    old(self).lemma_idx_in_range(xx, yy);
                    if post.idx_of(xx, yy) == idx {
                        old(self).lemma_idx_injective(xx, yy, x as int, y as int);
                    }
                }
            }
        }
    }

    /// Writes the characters of `s` along the row `y` beginning at column
    /// `x`, all in the style `style`; characters that fall outside the
    /// area are skipped silently.
    pub fn set_string(&mut self, x: u16, y: u16, s: &str, style: CellStyle)
        requires
            old(self).wf(),
        ensures
            final(self).wf(),
            final(self).area == old(self).area,
            forall|xx: int, yy: int|
                old(self).area.spec_contains(xx, yy) ==> #[trigger] final(self).cell_at(xx, yy)
                    == (if yy == y as int && x as int <= xx < x as int + s@.len() {
                    Cell { symbol: s@[xx - x as int], style }
                } else {
                    old(self).cell_at(xx, yy)
                }),
    {
        let n = s.unicode_len();
        let mut i: usize = 0;
        while i < n
            invariant
                i <= n,
                n == s@.len(),
                self.wf(),
                self.area == old(self).area,
                forall|xx: int, yy: int|
                    old(self).area.spec_contains(xx, yy) ==> #[trigger] self.cell_at(xx, yy) == (
                    if yy == y as int && x as int <= xx < x as int + i {
                        Cell { symbol: s@[xx - x as int], style }
                    } else {
                        old(self).cell_at(xx, yy)
                    }),
            decreases n - i,
        {
            let c = s.get_char(i);
            if i <= (u16::MAX - x) as usize {
                self.put(x + (i as u16), y, Cell { symbol: c, style });
            } else {
                proof {
                    assert(forall|xx: int|
                        self.area.spec_contains(xx, y as int) ==> xx <= u16::MAX);
                }
            }
            i = i + 1;
        }
    }
}

/// The cell the target holds at `(x, y)` after a blit: the source cell
/// that the scrolled window maps there, when both the window and the
/// source contain the point, else what the target already held.
pub open spec fn blit_cell(
    tgt0: Canvas,
    src: Canvas,
    area: Rect,
    off: (u16, u16),
    x: int,
    y: int,
) -> Cell {
    let sx = src.area.x + (x - area.x) + off.0;
    let sy = src.area.y + (y - area.y) + off.1;
    if area.spec_contains(x, y) && src.area.spec_contains(sx, sy) {
        src.cell_at(sx, sy)
    } else {
        tgt0.cell_at(x, y)
    }
}

/// Copies one cell from the source to the target; either point falling
/// outside its canvas makes this a silent no-op.
fn copy_cel(tgt: &mut Canvas, src: &Canvas, tgt_x: u16, tgt_y: u16, src_x: u16, src_y: u16)
    requires
        old(tgt).wf(),
        src.wf(),
    ensures
        final(tgt).wf(),
        final(tgt).area == old(tgt).area,
        forall|xx: int, yy: int|
            old(tgt).area.spec_contains(xx, yy) ==> #[trigger] final(tgt).cell_at(xx, yy) == (if xx
                == tgt_x as int && yy == tgt_y as int && src.area.spec_contains(
                src_x as int,
                src_y as int,
            ) {
                src.cell_at(src_x as int, src_y as int)
            } else {
                old(tgt).cell_at(xx, yy)
            }),
{
    match src.cell((src_x, src_y)) {
        None => {},
        Some(src_cell) => {
            let cell = *src_cell;
            tgt.put(tgt_x, tgt_y, cell);
        },
    }
}

/// Copies the window of the source selected by `src_offset` onto the
/// target area `area`, cell by cell, silently ignoring out-of-bounds
/// source cells.
pub fn blit(tgt: &mut Canvas, src: &Canvas, area: Rect, src_offset: (u16, u16))
    requires
        old(tgt).wf(),
        src.wf(),
        area.wf(),
    ensures
        final(tgt).wf(),
        final(tgt).area == old(tgt).area,
        forall|x: int, y: int|
            old(tgt).area.spec_contains(x, y) ==> #[trigger] final(tgt).cell_at(x, y) == blit_cell(
                *old(tgt),
                *src,
                area,
                src_offset,
                x,
                y,
            ),
{
    let (src_offset_x, src_offset_y) = src_offset;
    let ghost tgt0 = *tgt;
    let mut ty: u16 = area.y;
    while ty < area.y + area.height
        invariant
            tgt.wf(),
            src.wf(),
            area.wf(),
            tgt.area == tgt0.area,
            area.y <= ty <= area.y + area.height,
            forall|x: int, y: int|
                tgt0.area.spec_contains(x, y) ==> #[trigger] tgt.cell_at(x, y) == (if y < ty {
                    blit_cell(tgt0, *src, area, (src_offset_x, src_offset_y), x, y)
                } else {
                    tgt0.cell_at(x, y)
                }),
        decreases area.y + area.height - ty,
    {
        let mut tx: u16 = area.x;
        while tx < area.x + area.width
            invariant
                tgt.wf(),
                src.wf(),
                area.wf(),
                tgt.area == tgt0.area,
                area.x <= tx <= area.x + area.width,
                area.y <= ty < area.y + area.height,
                forall|x: int, y: int|
                    tgt0.area.spec_contains(x, y) ==> #[trigger] tgt.cell_at(x, y) == (if y
                        < ty as int || (y == ty as int && x < tx) {
                        blit_cell(tgt0, *src, area, (src_offset_x, src_offset_y), x, y)
                    } else {
                        tgt0.cell_at(x, y)
                    }),
            decreases area.x + area.width - tx,
        {
            let rel_x = tx - area.x;
            let rel_y = ty - area.y;
            let sx: usize = src.area.x as usize + rel_x as usize + src_offset_x as usize;
            let sy: usize = src.area.y as usize + rel_y as usize + src_offset_y as usize;
            if sx <= u16::MAX as usize && sy <= u16::MAX as usize {
                copy_cel(tgt, src, tx, ty, sx as u16, sy as u16);
            }
            tx = tx + 1;
        }
        ty = ty + 1;
    }
}

} // verus!
