use ghs::buffers::{blit, Canvas, CellStyle, Rect};

fn display_buffer(buf: &Canvas) -> String {
    let mut s = String::new();

    let w = (buf.area.width - buf.area.x) as usize;
    let h = (buf.area.height - buf.area.y) as usize;

    for row in 0..h {
        for col in 0..w {
            let Some(c) = buf.cell((row as u16, col as u16)) else {
                continue;
            };

            s.push(c.symbol);
        }
        s.push('\n');
    }

    s
}

#[test]
fn whatever() {
    let buf = Canvas::empty(Rect::new(0, 0, 5, 5));

    let disp = display_buffer(&buf);

    assert_eq!(disp, "     \n     \n     \n     \n     \n");
}

#[test]
fn display_test() {
    let mut buf = Canvas::empty(Rect::new(0, 0, 5, 5));
    buf.set_string(1, 1, "x", CellStyle::plain());

    let disp = display_buffer(&buf);

    assert_eq!(disp, "     \n x   \n     \n     \n     \n");
}

#[test]
fn basic_blit() {
    let mut src_buf = Canvas::empty(Rect::new(0, 0, 5, 5));
    src_buf.set_string(3, 3, "x", CellStyle::plain());

    let mut tgt_buf = Canvas::empty(Rect::new(0, 0, 5, 5));
    tgt_buf.set_string(4, 4, "x", CellStyle::plain());

    blit(&mut tgt_buf, &src_buf, Rect::new(0, 0, 5, 5), (0, 0));

    let disp = display_buffer(&tgt_buf);

    assert_eq!(disp, "     \n     \n     \n   x \n     \n");
}

#[test]
fn blit_smaller_with_offset() {
    let mut src_buf = Canvas::empty(Rect::new(0, 0, 2, 2));
    src_buf.set_string(0, 0, "x", CellStyle::plain());

    let mut tgt_buf = Canvas::empty(Rect::new(0, 0, 5, 5));
    tgt_buf.set_string(4, 4, "y", CellStyle::plain());

    blit(&mut tgt_buf, &src_buf, Rect::new(1, 1, 2, 2), (0, 0));

    let disp = display_buffer(&tgt_buf);

    assert_eq!(disp, "     \n x   \n     \n     \n    y\n");
}

#[test]
fn blit_larger_with_offset() {
    let mut src_buf = Canvas::empty(Rect::new(0, 0, 5, 5));
    src_buf.set_string(0, 0, "12345", CellStyle::plain());
    src_buf.set_string(0, 1, "12345", CellStyle::plain());
    src_buf.set_string(0, 2, "12345", CellStyle::plain());
    src_buf.set_string(0, 3, "12345", CellStyle::plain());
    src_buf.set_string(0, 4, "12345", CellStyle::plain());

    let mut tgt_buf = Canvas::empty(Rect::new(0, 0, 2, 2));

    blit(&mut tgt_buf, &src_buf, Rect::new(0, 0, 5, 5), (2, 2));

    let disp = display_buffer(&tgt_buf);

    assert_eq!(disp, "33\n44\n");
}

#[test]
fn blit_out_of_range_source_is_ignored() {
    let mut src_buf = Canvas::empty(Rect::new(0, 0, 2, 2));
    src_buf.set_string(0, 0, "ab", CellStyle::plain());
    src_buf.set_string(0, 1, "cd", CellStyle::plain());

    let mut tgt_buf = Canvas::empty(Rect::new(0, 0, 3, 3));
    // The source window starts at (1, 1): only "d" lands on the target;
    // every out-of-range source cell leaves the target untouched.
    blit(&mut tgt_buf, &src_buf, Rect::new(0, 0, 3, 3), (1, 1));

    let disp = display_buffer(&tgt_buf);
    assert_eq!(disp, "d  \n   \n   \n");
}
