use crate::context::{DrawCommand, Shape};
use crate::error::RuntimeError;
use crate::variable::values::{Effect, Rgb};
use vstd::prelude::*;

verus! {

/// A picture: `height` rows of `width` points each, every point with its
/// colour.
#[derive(Debug)]
pub struct Canvas {
    width: usize,
    height: usize,
    pixels: Vec<Rgb>,
}

/// What a picture is to the contracts: its size and its colours, row by
/// row.
pub struct CanvasView {
    pub width: usize,
    pub height: usize,
    pub pixels: Seq<Rgb>,
}

impl View for Canvas {
    type V = CanvasView;

    closed spec fn view(&self) -> CanvasView {
        CanvasView { width: self.width, height: self.height, pixels: self.pixels@ }
    }
}

/// The colour that the inverse effect makes of a colour.
pub open spec fn inverse_of(p: Rgb) -> Rgb {
    Rgb { r: (255 - p.r) as u8, g: (255 - p.g) as u8, b: (255 - p.b) as u8 }
}

/// Whether the point `p` of an axis of `size` points lies between the
/// points `from` and `to`, round the end of the axis where `from` lies
/// behind `to`. The stretch holds its first point and not its last.
pub open spec fn within(from: usize, to: usize, size: usize, p: int) -> bool {
    if from <= to {
        from <= p < to
    } else {
        0 <= p < to || from <= p < size
    }
}

/// Whether the point `p` of an axis of `size` points is one from which the
/// random effect takes what it puts between the points `from` and `to`: a
/// point from `from` to `to`, both included, and any point of the axis
/// where `from` lies behind `to`.
pub open spec fn source(from: usize, to: usize, size: usize, p: int) -> bool {
    if from <= to {
        from <= p <= to
    } else {
        0 <= p < size
    }
}

impl CanvasView {
    /// Whether there is a colour for every point.
    pub open spec fn wf(self) -> bool {
        self.pixels.len() == self.width * self.height
    }

    /// Whether `(x, y)` is a point of the picture.
    pub open spec fn holds(self, x: int, y: int) -> bool {
        0 <= x < self.width && 0 <= y < self.height
    }

    /// The colour of the point `(x, y)`.
    pub open spec fn at(self, x: int, y: int) -> Rgb {
        self.pixels[y * self.width + x]
    }

    /// Whether the other picture is of the same size.
    pub open spec fn sized_as(self, other: CanvasView) -> bool {
        self.width == other.width && self.height == other.height
    }

    /// The picture with the point `(x, y)` in the colour `p`.
    pub open spec fn put(self, x: int, y: int, p: Rgb) -> CanvasView {
        CanvasView { pixels: self.pixels.update(y * self.width + x, p), ..self }
    }

    /// Whether some point of the picture between the columns `l` and `r` and
    /// the rows `t` and `b` has the colour `p`; see `source`.
    pub open spec fn shows_within(self, l: usize, r: usize, t: usize, b: usize, p: Rgb) -> bool {
        exists|x: int, y: int|
            self.holds(x, y) && source(l, r, self.width, x) && source(t, b, self.height, y)
                && #[trigger] self.at(x, y) == p
    }
}

/// The colour that the inverse effect makes of a colour: each part becomes
/// what it lacks of 255.
pub fn inverse_color(p: Rgb) -> (r: Rgb)
    ensures
        r == inverse_of(p),
{
    Rgb { r: u8::MAX - p.r, g: u8::MAX - p.g, b: u8::MAX - p.b }
}

/// A number between `lo` and `hi`, both included, chosen at random by
/// `rand::Rng::gen_range` on the generator of the thread. The range must
/// not be empty. Nothing is claimed of the number but that it lies in the
/// range.
#[verifier::external_body]
fn random_between(lo: usize, hi: usize) -> (r: usize)
    requires
        lo <= hi,
    ensures
        lo <= r <= hi,
{
    rand::Rng::gen_range(&mut rand::thread_rng(), lo..=hi)
}

/// A point of an axis of `size` points, chosen at random, from which the
/// random effect takes what it puts between the points `lo` and `hi`: a
/// point from `lo` to `hi` if `lo` does not lie behind `hi`, and else a
/// point from `hi` to `lo` round the end of the axis. There is no such point
/// where the axis is too long to count round its end.
pub fn random_source(lo: usize, hi: usize, size: usize) -> (r: Option<usize>)
    requires
        size > 0,
    ensures
        lo <= hi ==> r is Some && lo <= r->Some_0 <= hi,
        lo > hi && lo + size <= usize::MAX ==> r is Some && r->Some_0 < size,
        lo > hi && lo + size > usize::MAX ==> r is None,
{
    if lo <= hi {
        Some(random_between(lo, hi))
    } else {
        match lo.checked_add(size) {
            Some(end) => Some(random_between(hi, end) % size),
            None => None,
        }
    }
}

/// The points of a picture have places of their own among its colours.
pub proof fn lemma_places(c: CanvasView, x: int, y: int, x2: int, y2: int)
    requires
        c.wf(),
        c.holds(x, y),
        c.holds(x2, y2),
    ensures
        0 <= y * c.width + x < c.pixels.len(),
        (y * c.width + x == y2 * c.width + x2) ==> (x == x2 && y == y2),
{
    let w = c.width as int;
    let h = c.height as int;
    assert(0 <= y * w && (y + 1) * w <= h * w) by (nonlinear_arith)
        requires
            0 <= y < h,
            0 <= w,
    ;
    assert((y + 1) * w == y * w + w) by (nonlinear_arith);
    if y * w + x == y2 * w + x2 {
        if y < y2 {
            assert((y + 1) * w <= y2 * w) by (nonlinear_arith)
                requires
                    y + 1 <= y2,
                    0 <= w,
            ;
        }
        if y2 < y {
            assert((y2 + 1) * w <= y * w) by (nonlinear_arith)
                requires
                    y2 + 1 <= y,
                    0 <= w,
            ;
            assert((y2 + 1) * w == y2 * w + w) by (nonlinear_arith);
        }
    }
}

/// A point that is put has its new colour, and the others keep theirs.
pub proof fn lemma_put(c: CanvasView, x: int, y: int, p: Rgb, x2: int, y2: int)
    requires
        c.wf(),
        c.holds(x, y),
        c.holds(x2, y2),
    ensures
        c.put(x, y, p).wf(),
        c.put(x, y, p).sized_as(c),
        c.put(x, y, p).at(x2, y2) == (if x2 == x && y2 == y {
            p
        } else {
            c.at(x2, y2)
        }),
{
    lemma_places(c, x, y, x2, y2);
    lemma_places(c, x2, y2, x, y);
}

impl Canvas {
    /// A picture of the given size in one colour, if it has few enough
    /// points to be held.
    pub fn new(width: usize, height: usize, fill: Rgb) -> (r: Option<Self>)
        ensures
            match r {
                Some(c) => {
                    &&& c@.wf()
                    &&& c@.width == width
                    &&& c@.height == height
                    &&& forall|i: int| 0 <= i < c@.pixels.len() ==> c@.pixels[i] == fill
                },
                None => width * height > usize::MAX,
            },
    {
        let count = match width.checked_mul(height) {
            Some(count) => count,
            None => {
                return None;
            },
        };
        let mut pixels: Vec<Rgb> = Vec::new();
        let mut i: usize = 0;
        while i < count
            invariant
                i <= count,
                pixels@.len() == i,
                forall|k: int| 0 <= k < i ==> pixels@[k] == fill,
            decreases count - i,
        {
            pixels.push(fill);
            i += 1;
        }
        Some(Canvas { width, height, pixels })
    }

    /// The picture of the given size with the given colours, row by row,
    /// if there is a colour for every point.
    pub fn from_pixels(width: usize, height: usize, pixels: Vec<Rgb>) -> (r: Option<Self>)
        ensures
            match r {
                Some(c) => c@.wf() && c@ == (CanvasView { width, height, pixels: pixels@ }),
                None => pixels@.len() != width * height,
            },
    {
        let given = pixels.len();
        match width.checked_mul(height) {
            Some(count) => if count == given {
                let c = Canvas { width, height, pixels };
                Some(c)
            } else {
                None
            },
            None => None,
        }
    }

    pub fn get_width(&self) -> (r: usize)
        ensures
            r == self@.width,
    {
        self.width
    }

    pub fn get_height(&self) -> (r: usize)
        ensures
            r == self@.height,
    {
        self.height
    }

    /// The colours of the picture, row by row.
    pub fn get_pixels(&self) -> (r: &Vec<Rgb>)
        ensures
            r@ == self@.pixels,
    {
        &self.pixels
    }

    /// The colour of the point `(x, y)`, which must be a point of the
    /// picture.
    pub fn get_pixel(&self, x: usize, y: usize) -> (r: Rgb)
        requires
            self@.wf(),
            self@.holds(x as int, y as int),
        ensures
            r == self@.at(x as int, y as int),
    {
        let count = self.pixels.len();
        proof {
            lemma_places(self@, x as int, y as int, x as int, y as int);
            assert(0 <= y * self.width) by (nonlinear_arith);
            assert(y * self.width + x < count);
        }
        self.pixels[y * self.width + x]
    }

    /// Gives the point `(x, y)`, which must be a point of the picture, the
    /// colour `p`.
    pub fn put_pixel(&mut self, x: usize, y: usize, p: Rgb)
        requires
            old(self)@.wf(),
            old(self)@.holds(x as int, y as int),
        ensures
            final(self)@ == old(self)@.put(x as int, y as int, p),
            final(self)@.wf(),
    {
        let count = self.pixels.len();
        proof {
            lemma_places(self@, x as int, y as int, x as int, y as int);
            assert(0 <= y * self.width) by (nonlinear_arith);
            assert(y * self.width + x < count);
        }
        let place = y * self.width + x;
        self.pixels.set(place, p);
    }
}

/// What is done to the points of a rectangle: they get one colour, or the
/// inverse of their colour, or each the colour of a point of the picture
/// that is chosen at random from the columns and rows between the given
/// points of the two axes.
#[derive(Clone, Copy, Debug, PartialEq, Eq, Structural)]
pub enum Paint {
    Fill(Rgb),
    Inverse,
    Random(usize, usize, usize, usize),
}

/// Whether `new` can be the colour of the point `(x, y)` once it was
/// painted, where `before` is the picture before anything was painted.
pub open spec fn painted(paint: Paint, before: CanvasView, x: int, y: int, new: Rgb) -> bool {
    match paint {
        Paint::Fill(p) => new == p,
        Paint::Inverse => new == inverse_of(before.at(x, y)),
        Paint::Random(l, r, t, b) => before.shows_within(l, r, t, b, new),
    }
}

/// Whether the picture `after` is the picture `before` with the points
/// `inside` painted, each once, and the others as they were.
pub open spec fn repainted(
    before: CanvasView,
    after: CanvasView,
    paint: Paint,
    inside: spec_fn(int, int) -> bool,
) -> bool {
    &&& after.wf()
    &&& after.sized_as(before)
    &&& forall|x: int, y: int|
        #![trigger after.at(x, y)]
        before.holds(x, y) ==> if inside(x, y) {
            painted(paint, before, x, y, after.at(x, y))
        } else {
            after.at(x, y) == before.at(x, y)
        }
}

/// The points of the rectangle between two columns and two rows of a
/// picture, each taken round the end of its axis.
pub open spec fn rectangle(l: usize, r: usize, t: usize, b: usize, c: CanvasView) -> spec_fn(
    int,
    int,
) -> bool {
    |x: int, y: int| within(l, r, c.width, x) && within(t, b, c.height, y)
}

/// The points of the outline of that rectangle: those of its columns in
/// its first row and in the row behind its last, and those of its rows in
/// its first column and in the column behind its last.
pub open spec fn outline(l: usize, r: usize, t: usize, b: usize, c: CanvasView) -> spec_fn(
    int,
    int,
) -> bool {
    |x: int, y: int|
        ((y == t || y == b) && within(l, r, c.width, x)) || ((x == l || x == r) && within(
            t,
            b,
            c.height,
            y,
        ))
}

/// Painting one set of points and then another, which has no point of the
/// first, paints the points of both.
pub proof fn lemma_repainted_on(
    start: CanvasView,
    mid: CanvasView,
    end: CanvasView,
    paint: Paint,
    first: spec_fn(int, int) -> bool,
    second: spec_fn(int, int) -> bool,
    both: spec_fn(int, int) -> bool,
)
    requires
        start.wf(),
        repainted(start, mid, paint, first),
        repainted(mid, end, paint, second),
        forall|x: int, y: int| start.holds(x, y) ==> !(first(x, y) && second(x, y)),
        forall|x: int, y: int| start.holds(x, y) ==> (both(x, y) <==> (first(x, y) || second(x, y))),
    ensures
        repainted(start, end, paint, both),
{
    assert forall|x: int, y: int| #![trigger end.at(x, y)] start.holds(x, y) implies if both(
        x,
        y,
    ) {
        painted(paint, start, x, y, end.at(x, y))
    } else {
        end.at(x, y) == start.at(x, y)
    } by {
        assert(mid.holds(x, y));
        let m = mid.at(x, y);
        let e = end.at(x, y);
        if second(x, y) {
            assert(m == start.at(x, y));
            match paint {
                Paint::Random(l, r, t, b) => {
                    let (sx, sy) = choose|sx: int, sy: int|
                        mid.holds(sx, sy) && source(l, r, mid.width, sx) && source(
                            t,
                            b,
                            mid.height,
                            sy,
                        ) && #[trigger] mid.at(sx, sy) == e;
                    lemma_shown_before(start, mid, paint, first, sx, sy);
                },
                _ => {},
            }
        }
    }
}

/// What a picture shows, after points were painted at random, at a point
/// from which the random effect takes, the picture showed before at such a
/// point.
pub proof fn lemma_shown_before(
    start: CanvasView,
    mid: CanvasView,
    paint: Paint,
    inside: spec_fn(int, int) -> bool,
    x: int,
    y: int,
)
    requires
        repainted(start, mid, paint, inside),
        paint is Random,
        start.holds(x, y),
        source(paint->Random_0, paint->Random_1, start.width, x),
        source(paint->Random_2, paint->Random_3, start.height, y),
    ensures
        start.shows_within(
            paint->Random_0,
            paint->Random_1,
            paint->Random_2,
            paint->Random_3,
            mid.at(x, y),
        ),
{
    let m = mid.at(x, y);
    if !inside(x, y) {
        assert(start.holds(x, y) && start.at(x, y) == m);
    }
}

/// Painting no point leaves the picture as it is.
pub proof fn lemma_repainted_nowhere(c: CanvasView, paint: Paint, inside: spec_fn(int, int) -> bool)
    requires
        c.wf(),
        forall|x: int, y: int| c.holds(x, y) ==> !inside(x, y),
    ensures
        repainted(c, c, paint, inside),
{
}

/// The same points painted are the same picture, however the points are
/// told.
pub proof fn lemma_repainted_same(
    before: CanvasView,
    after: CanvasView,
    paint: Paint,
    told: spec_fn(int, int) -> bool,
    other: spec_fn(int, int) -> bool,
)
    requires
        repainted(before, after, paint, told),
        forall|x: int, y: int| before.holds(x, y) ==> (told(x, y) <==> other(x, y)),
    ensures
        repainted(before, after, paint, other),
{
    assert forall|x: int, y: int| #![trigger after.at(x, y)] before.holds(x, y) implies if other(
        x,
        y,
    ) {
        painted(paint, before, x, y, after.at(x, y))
    } else {
        after.at(x, y) == before.at(x, y)
    } by {
        assert(told(x, y) <==> other(x, y));
    }
}

impl Canvas {
    /// Paints the point `(x, y)`.
    pub fn paint_pixel(&mut self, x: usize, y: usize, paint: Paint)
        requires
            old(self)@.wf(),
            old(self)@.holds(x as int, y as int),
            paint matches Paint::Random(l, r, t, b) ==> l < old(self)@.width && r < old(
                self,
            )@.width && t < old(self)@.height && b < old(self)@.height,
        ensures
            repainted(old(self)@, final(self)@, paint, |x2: int, y2: int| x2 == x && y2 == y),
    {
        let ghost before = self@;
        let new = match paint {
            Paint::Fill(p) => p,
            Paint::Inverse => inverse_color(self.get_pixel(x, y)),
            Paint::Random(l, r, t, b) => {
                let from_x = match random_source(l, r, self.width) {
                    Some(from_x) => from_x,
                    None => x,
                };
                let from_y = match random_source(t, b, self.height) {
                    Some(from_y) => from_y,
                    None => y,
                };
                let found = self.get_pixel(from_x, from_y);
                assert(before.holds(from_x as int, from_y as int) && source(
                    l,
                    r,
                    before.width,
                    from_x as int,
                ) && source(t, b, before.height, from_y as int) && before.at(
                    from_x as int,
                    from_y as int,
                ) == found);
                found
            },
        };
        self.put_pixel(x, y, new);
        proof {
            assert(painted(paint, before, x as int, y as int, new));
            assert forall|x2: int, y2: int| #![trigger self@.at(x2, y2)] before.holds(
                x2,
                y2,
            ) implies if x2 == x && y2 == y {
                painted(paint, before, x2, y2, self@.at(x2, y2))
            } else {
                self@.at(x2, y2) == before.at(x2, y2)
            } by {
                lemma_put(before, x as int, y as int, new, x2, y2);
            }
            lemma_put(before, x as int, y as int, new, x as int, y as int);
        }
    }

    /// Paints the points of the row `y` from the column `x0` up to the
    /// column `x1`.
    pub fn paint_stretch(&mut self, y: usize, x0: usize, x1: usize, paint: Paint)
        requires
            old(self)@.wf(),
            x0 <= x1 <= old(self)@.width,
            y < old(self)@.height,
            paint matches Paint::Random(l, r, t, b) ==> l < old(self)@.width && r < old(
                self,
            )@.width && t < old(self)@.height && b < old(self)@.height,
        ensures
            repainted(
                old(self)@,
                final(self)@,
                paint,
                |x2: int, y2: int| y2 == y && x0 <= x2 < x1,
            ),
    {
        let ghost start = self@;
        let mut x: usize = x0;
        proof {
            lemma_repainted_nowhere(start, paint, |x2: int, y2: int| y2 == y && x0 <= x2 < x0);
        }
        while x < x1
            invariant
                x0 <= x <= x1 <= start.width,
                y < start.height,
                start == old(self)@,
                start.wf(),
                self@.wf(),
                self@.sized_as(start),
                paint matches Paint::Random(l, r, t, b) ==> l < start.width && r < start.width && t
                    < start.height && b < start.height,
                repainted(start, self@, paint, |x2: int, y2: int| y2 == y && x0 <= x2 < x),
            decreases x1 - x,
        {
            let ghost mid = self@;
            self.paint_pixel(x, y, paint);
            proof {
                lemma_repainted_on(
                    start,
                    mid,
                    self@,
                    paint,
                    |x2: int, y2: int| y2 == y && x0 <= x2 < x,
                    |x2: int, y2: int| x2 == x && y2 == y,
                    |x2: int, y2: int| y2 == y && x0 <= x2 < x + 1,
                );
            }
            x += 1;
        }
    }

    /// Paints the points of the row `y` between the columns `l` and `r`,
    /// round the end of the row where `l` lies behind `r`.
    pub fn paint_row(&mut self, y: usize, l: usize, r: usize, paint: Paint)
        requires
            old(self)@.wf(),
            l < old(self)@.width,
            r < old(self)@.width,
            y < old(self)@.height,
            paint matches Paint::Random(l, r, t, b) ==> l < old(self)@.width && r < old(
                self,
            )@.width && t < old(self)@.height && b < old(self)@.height,
        ensures
            repainted(
                old(self)@,
                final(self)@,
                paint,
                |x2: int, y2: int| y2 == y && within(l, r, old(self)@.width, x2),
            ),
    {
        let ghost start = self@;
        let width = self.width;
        if l <= r {
            self.paint_stretch(y, l, r, paint);
            proof {
                lemma_repainted_same(
                    start,
                    self@,
                    paint,
                    |x2: int, y2: int| y2 == y && l <= x2 < r,
                    |x2: int, y2: int| y2 == y && within(l, r, start.width, x2),
                );
            }
        } else {
            self.paint_stretch(y, 0, r, paint);
            let ghost mid = self@;
            self.paint_stretch(y, l, width, paint);
            proof {
                lemma_repainted_on(
                    start,
                    mid,
                    self@,
                    paint,
                    |x2: int, y2: int| y2 == y && 0 <= x2 < r,
                    |x2: int, y2: int| y2 == y && l <= x2 < width,
                    |x2: int, y2: int| y2 == y && within(l, r, start.width, x2),
                );
            }
        }
    }

    /// Paints the points of the rows from `y0` up to `y1` between the
    /// columns `l` and `r`.
    pub fn paint_rows(&mut self, y0: usize, y1: usize, l: usize, r: usize, paint: Paint)
        requires
            old(self)@.wf(),
            l < old(self)@.width,
            r < old(self)@.width,
            y0 <= y1 <= old(self)@.height,
            paint matches Paint::Random(l, r, t, b) ==> l < old(self)@.width && r < old(
                self,
            )@.width && t < old(self)@.height && b < old(self)@.height,
        ensures
            repainted(
                old(self)@,
                final(self)@,
                paint,
                |x2: int, y2: int| y0 <= y2 < y1 && within(l, r, old(self)@.width, x2),
            ),
    {
        let ghost start = self@;
        let mut y: usize = y0;
        proof {
            lemma_repainted_nowhere(
                start,
                paint,
                |x2: int, y2: int| y0 <= y2 < y0 && within(l, r, start.width, x2),
            );
        }
        while y < y1
            invariant
                y0 <= y <= y1 <= start.height,
                l < start.width,
                r < start.width,
                start == old(self)@,
                start.wf(),
                self@.wf(),
                self@.sized_as(start),
                paint matches Paint::Random(l, r, t, b) ==> l < start.width && r < start.width && t
                    < start.height && b < start.height,
                repainted(
                    start,
                    self@,
                    paint,
                    |x2: int, y2: int| y0 <= y2 < y && within(l, r, start.width, x2),
                ),
            decreases y1 - y,
        {
            let ghost mid = self@;
            self.paint_row(y, l, r, paint);
            proof {
                lemma_repainted_on(
                    start,
                    mid,
                    self@,
                    paint,
                    |x2: int, y2: int| y0 <= y2 < y && within(l, r, start.width, x2),
                    |x2: int, y2: int| y2 == y && within(l, r, mid.width, x2),
                    |x2: int, y2: int| y0 <= y2 < y + 1 && within(l, r, start.width, x2),
                );
            }
            y += 1;
        }
    }

    /// Paints the points of the rectangle between the columns `l` and `r`
    /// and the rows `t` and `b`; see `rectangle`.
    pub fn paint_rect(&mut self, l: usize, r: usize, t: usize, b: usize, paint: Paint)
        requires
            old(self)@.wf(),
            l < old(self)@.width,
            r < old(self)@.width,
            t < old(self)@.height,
            b < old(self)@.height,
            paint matches Paint::Random(l, r, t, b) ==> l < old(self)@.width && r < old(
                self,
            )@.width && t < old(self)@.height && b < old(self)@.height,
        ensures
            repainted(old(self)@, final(self)@, paint, rectangle(l, r, t, b, old(self)@)),
    {
        let ghost start = self@;
        let height = self.height;
        if t <= b {
            self.paint_rows(t, b, l, r, paint);
            proof {
                lemma_repainted_same(
                    start,
                    self@,
                    paint,
                    |x2: int, y2: int| t <= y2 < b && within(l, r, start.width, x2),
                    rectangle(l, r, t, b, start),
                );
            }
        } else {
            self.paint_rows(0, b, l, r, paint);
            let ghost mid = self@;
            self.paint_rows(t, height, l, r, paint);
            proof {
                lemma_repainted_on(
                    start,
                    mid,
                    self@,
                    paint,
                    |x2: int, y2: int| 0 <= y2 < b && within(l, r, start.width, x2),
                    |x2: int, y2: int| t <= y2 < height && within(l, r, mid.width, x2),
                    rectangle(l, r, t, b, start),
                );
            }
        }
    }
}

/// Filling one set of points and then another fills the points of both.
pub proof fn lemma_filled_on(
    start: CanvasView,
    mid: CanvasView,
    end: CanvasView,
    p: Rgb,
    first: spec_fn(int, int) -> bool,
    second: spec_fn(int, int) -> bool,
    both: spec_fn(int, int) -> bool,
)
    requires
        start.wf(),
        repainted(start, mid, Paint::Fill(p), first),
        repainted(mid, end, Paint::Fill(p), second),
        forall|x: int, y: int| start.holds(x, y) ==> (both(x, y) <==> (first(x, y) || second(x, y))),
    ensures
        repainted(start, end, Paint::Fill(p), both),
{
    assert forall|x: int, y: int| #![trigger end.at(x, y)] start.holds(x, y) implies if both(
        x,
        y,
    ) {
        painted(Paint::Fill(p), start, x, y, end.at(x, y))
    } else {
        end.at(x, y) == start.at(x, y)
    } by {
        assert(mid.holds(x, y));
        let m = mid.at(x, y);
        let e = end.at(x, y);
    }
}

/// The rectangle between two corners, each taken round the picture.
pub open spec fn wrapped_rectangle(
    top_left: (usize, usize),
    bottom_right: (usize, usize),
    c: CanvasView,
) -> spec_fn(int, int) -> bool {
    rectangle(
        (top_left.0 % c.width) as usize,
        (bottom_right.0 % c.width) as usize,
        (top_left.1 % c.height) as usize,
        (bottom_right.1 % c.height) as usize,
        c,
    )
}

/// The outline of the rectangle between two corners, each taken round the
/// picture.
pub open spec fn wrapped_outline(
    top_left: (usize, usize),
    bottom_right: (usize, usize),
    c: CanvasView,
) -> spec_fn(int, int) -> bool {
    outline(
        (top_left.0 % c.width) as usize,
        (bottom_right.0 % c.width) as usize,
        (top_left.1 % c.height) as usize,
        (bottom_right.1 % c.height) as usize,
        c,
    )
}

impl Canvas {
    /// Fills the points of the column `x` from the row `y0` up to the row
    /// `y1`.
    pub fn fill_down(&mut self, x: usize, y0: usize, y1: usize, p: Rgb)
        requires
            old(self)@.wf(),
            y0 <= y1 <= old(self)@.height,
            x < old(self)@.width,
        ensures
            repainted(
                old(self)@,
                final(self)@,
                Paint::Fill(p),
                |x2: int, y2: int| x2 == x && y0 <= y2 < y1,
            ),
    {
        let ghost start = self@;
        let mut y: usize = y0;
        proof {
            lemma_repainted_nowhere(
                start,
                Paint::Fill(p),
                |x2: int, y2: int| x2 == x && y0 <= y2 < y0,
            );
        }
        while y < y1
            invariant
                y0 <= y <= y1 <= start.height,
                x < start.width,
                start == old(self)@,
                start.wf(),
                self@.wf(),
                self@.sized_as(start),
                repainted(
                    start,
                    self@,
                    Paint::Fill(p),
                    |x2: int, y2: int| x2 == x && y0 <= y2 < y,
                ),
            decreases y1 - y,
        {
            let ghost mid = self@;
            self.paint_pixel(x, y, Paint::Fill(p));
            proof {
                lemma_filled_on(
                    start,
                    mid,
                    self@,
                    p,
                    |x2: int, y2: int| x2 == x && y0 <= y2 < y,
                    |x2: int, y2: int| x2 == x && y2 == y,
                    |x2: int, y2: int| x2 == x && y0 <= y2 < y + 1,
                );
            }
            y += 1;
        }
    }

    /// Fills the points of the column `x` between the rows `t` and `b`,
    /// round the end of the column where `t` lies behind `b`.
    pub fn fill_column(&mut self, x: usize, t: usize, b: usize, p: Rgb)
        requires
            old(self)@.wf(),
            t < old(self)@.height,
            b < old(self)@.height,
            x < old(self)@.width,
        ensures
            repainted(
                old(self)@,
                final(self)@,
                Paint::Fill(p),
                |x2: int, y2: int| x2 == x && within(t, b, old(self)@.height, y2),
            ),
    {
        let ghost start = self@;
        let height = self.height;
        if t <= b {
            self.fill_down(x, t, b, p);
            proof {
                lemma_repainted_same(
                    start,
                    self@,
                    Paint::Fill(p),
                    |x2: int, y2: int| x2 == x && t <= y2 < b,
                    |x2: int, y2: int| x2 == x && within(t, b, start.height, y2),
                );
            }
        } else {
            self.fill_down(x, 0, b, p);
            let ghost mid = self@;
            self.fill_down(x, t, height, p);
            proof {
                lemma_filled_on(
                    start,
                    mid,
                    self@,
                    p,
                    |x2: int, y2: int| x2 == x && 0 <= y2 < b,
                    |x2: int, y2: int| x2 == x && t <= y2 < height,
                    |x2: int, y2: int| x2 == x && within(t, b, start.height, y2),
                );
            }
        }
    }

    /// Gives every point of the rectangle between the columns `l` and `r`
    /// and the rows `t` and `b` the colour of a point that is chosen at
    /// random from the columns `l` to `r` and the rows `t` to `b`, both
    /// included, and from all columns or rows where the rectangle goes
    /// round the end of the picture. The points are painted one after the
    /// other, so that a point may get a colour that was put before; every
    /// colour that the rectangle shows afterwards, a point to choose from
    /// showed before. The other points keep their colours.
    pub fn randomize(&mut self, l: usize, r: usize, t: usize, b: usize)
        requires
            old(self)@.wf(),
            l < old(self)@.width,
            r < old(self)@.width,
            t < old(self)@.height,
            b < old(self)@.height,
        ensures
            repainted(
                old(self)@,
                final(self)@,
                Paint::Random(l, r, t, b),
                rectangle(l, r, t, b, old(self)@),
            ),
    {
        self.paint_rect(l, r, t, b, Paint::Random(l, r, t, b));
    }

    /// Gives every point of the rectangle between the columns `l` and `r`
    /// and the rows `t` and `b` the inverse of its colour.
    pub fn inverse(&mut self, l: usize, r: usize, t: usize, b: usize)
        requires
            old(self)@.wf(),
            l < old(self)@.width,
            r < old(self)@.width,
            t < old(self)@.height,
            b < old(self)@.height,
        ensures
            repainted(old(self)@, final(self)@, Paint::Inverse, rectangle(l, r, t, b, old(self)@)),
    {
        self.paint_rect(l, r, t, b, Paint::Inverse);
    }
}

/// What can be drawn on: something that shows a picture, on which
/// rectangles can be drawn.
pub trait Drawable {
    /// The picture that is shown.
    spec fn picture(&self) -> CanvasView;

    /// Draws a rectangle filled with the colour `p` between two corners,
    /// each taken round the picture, which must have points.
    fn draw_rect(&mut self, top_left: (usize, usize), bottom_right: (usize, usize), p: Rgb)
        requires
            old(self).picture().wf(),
            old(self).picture().width > 0,
            old(self).picture().height > 0,
        ensures
            repainted(
                old(self).picture(),
                final(self).picture(),
                Paint::Fill(p),
                wrapped_rectangle(top_left, bottom_right, old(self).picture()),
            ),
    ;

    /// Draws the outline of the rectangle between two corners, each taken
    /// round the picture, which must have points, in the colour `p`; see
    /// `outline`.
    fn draw_rect_outline(
        &mut self,
        top_left: (usize, usize),
        bottom_right: (usize, usize),
        p: Rgb,
    )
        requires
            old(self).picture().wf(),
            old(self).picture().width > 0,
            old(self).picture().height > 0,
        ensures
            repainted(
                old(self).picture(),
                final(self).picture(),
                Paint::Fill(p),
                wrapped_outline(top_left, bottom_right, old(self).picture()),
            ),
    ;

    /// Applies an effect to the rectangle between two corners, each taken
    /// round the picture, which must have points. The inverse effect gives
    /// every point the inverse of its colour; the random effect gives every
    /// point the colour of a point between the corners, the last column and
    /// row included; see `Canvas::randomize`. There is no blur
    /// effect: asking for it is an error, and leaves the picture as it is.
    fn draw_effect_rect(
        &mut self,
        top_left: (usize, usize),
        bottom_right: (usize, usize),
        e: Effect,
    ) -> (done: Result<(), RuntimeError>)
        requires
            old(self).picture().wf(),
            old(self).picture().width > 0,
            old(self).picture().height > 0,
        ensures
            final(self).picture().wf(),
            final(self).picture().sized_as(old(self).picture()),
            match e {
                Effect::Blur => done == Err::<(), RuntimeError>(RuntimeError::Unsupported)
                    && final(self).picture() == old(self).picture(),
                Effect::Inverse => done is Ok && repainted(
                    old(self).picture(),
                    final(self).picture(),
                    Paint::Inverse,
                    wrapped_rectangle(top_left, bottom_right, old(self).picture()),
                ),
                Effect::Random => done is Ok && repainted(
                    old(self).picture(),
                    final(self).picture(),
                    Paint::Random(
                        (top_left.0 % old(self).picture().width) as usize,
                        (bottom_right.0 % old(self).picture().width) as usize,
                        (top_left.1 % old(self).picture().height) as usize,
                        (bottom_right.1 % old(self).picture().height) as usize,
                    ),
                    wrapped_rectangle(top_left, bottom_right, old(self).picture()),
                ),
            },
    ;
}

impl Drawable for Canvas {
    open spec fn picture(&self) -> CanvasView {
        self@
    }

    fn draw_rect(&mut self, top_left: (usize, usize), bottom_right: (usize, usize), p: Rgb) {
        let l = top_left.0 % self.width;
        let r = bottom_right.0 % self.width;
        let t = top_left.1 % self.height;
        let b = bottom_right.1 % self.height;
        self.paint_rect(l, r, t, b, Paint::Fill(p));
    }

    fn draw_effect_rect(
        &mut self,
        top_left: (usize, usize),
        bottom_right: (usize, usize),
        e: Effect,
    ) -> (done: Result<(), RuntimeError>) {
        let l = top_left.0 % self.width;
        let r = bottom_right.0 % self.width;
        let t = top_left.1 % self.height;
        let b = bottom_right.1 % self.height;
        match e {
            Effect::Blur => Err(RuntimeError::Unsupported),
            Effect::Random => {
                self.randomize(l, r, t, b);
                Ok(())
            },
            Effect::Inverse => {
                self.inverse(l, r, t, b);
                Ok(())
            },
        }
    }

    fn draw_rect_outline(
        &mut self,
        top_left: (usize, usize),
        bottom_right: (usize, usize),
        p: Rgb,
    ) {
        let ghost start = self@;
        let l = top_left.0 % self.width;
        let r = bottom_right.0 % self.width;
        let t = top_left.1 % self.height;
        let b = bottom_right.1 % self.height;
        let ghost top = |x2: int, y2: int| y2 == t && within(l, r, start.width, x2);
        let ghost bottom = |x2: int, y2: int| y2 == b && within(l, r, start.width, x2);
        let ghost rows = |x2: int, y2: int| (y2 == t || y2 == b) && within(l, r, start.width, x2);
        let ghost left = |x2: int, y2: int| x2 == l && within(t, b, start.height, y2);
        let ghost right = |x2: int, y2: int| x2 == r && within(t, b, start.height, y2);
        let ghost rows_and_left = |x2: int, y2: int| rows(x2, y2) || left(x2, y2);
        // draw top/bottom row
        self.paint_row(t, l, r, Paint::Fill(p));
        let ghost first = self@;
        self.paint_row(b, l, r, Paint::Fill(p));
        let ghost second = self@;
        proof {
            lemma_repainted_same(
                start,
                first,
                Paint::Fill(p),
                |x2: int, y2: int| y2 == t && within(l, r, start.width, x2),
                top,
            );
            lemma_repainted_same(
                first,
                second,
                Paint::Fill(p),
                |x2: int, y2: int| y2 == b && within(l, r, first.width, x2),
                bottom,
            );
            lemma_filled_on(start, first, second, p, top, bottom, rows);
        }
        // draw edges
        self.fill_column(l, t, b, p);
        let ghost third = self@;
        self.fill_column(r, t, b, p);
        proof {
            lemma_repainted_same(
                second,
                third,
                Paint::Fill(p),
                |x2: int, y2: int| x2 == l && within(t, b, second.height, y2),
                left,
            );
            lemma_repainted_same(
                third,
                self@,
                Paint::Fill(p),
                |x2: int, y2: int| x2 == r && within(t, b, third.height, y2),
                right,
            );
            lemma_filled_on(start, second, third, p, rows, left, rows_and_left);
            lemma_filled_on(
                start,
                third,
                self@,
                p,
                rows_and_left,
                right,
                wrapped_outline(top_left, bottom_right, start),
            );
        }
    }
}

impl Canvas {
    /// Performs a drawing call on the picture, which must have points; see
    /// `applied`. There is no blur effect: a call that asks for it is an
    /// error, and leaves the picture as it is.
    pub fn apply(&mut self, command: &DrawCommand) -> (done: Result<(), RuntimeError>)
        requires
            old(self)@.wf(),
            old(self)@.width > 0,
            old(self)@.height > 0,
        ensures
            final(self)@.wf(),
            final(self)@.sized_as(old(self)@),
            match command.shape {
                Shape::EffectRect(Effect::Blur) => done == Err::<(), RuntimeError>(
                    RuntimeError::Unsupported,
                ) && final(self)@ == old(self)@,
                _ => done is Ok && applied(old(self)@, final(self)@, *command),
            },
    {
        match command.shape {
            Shape::Rect(p) => {
                self.draw_rect(command.top_left, command.bottom_right, p);
                Ok(())
            },
            Shape::RectOutline(p) => {
                self.draw_rect_outline(command.top_left, command.bottom_right, p);
                Ok(())
            },
            Shape::EffectRect(e) => self.draw_effect_rect(command.top_left, command.bottom_right, e),
        }
    }

    /// Performs drawing calls on the picture, which must have points, in
    /// their order; see `performed`. The first call that asks for the blur
    /// effect is an error, and the picture is left as the calls before it
    /// made it.
    pub fn apply_all(&mut self, commands: &Vec<DrawCommand>) -> (done: Result<(), RuntimeError>)
        requires
            old(self)@.wf(),
            old(self)@.width > 0,
            old(self)@.height > 0,
        ensures
            final(self)@.wf(),
            final(self)@.sized_as(old(self)@),
            match done {
                Ok(()) => performed(old(self)@, final(self)@, commands@, commands@.len()),
                Err(e) => e == RuntimeError::Unsupported && exists|k: int|
                    0 <= k < commands@.len() && (#[trigger] commands@[k]).shape
                        == Shape::EffectRect(Effect::Blur) && performed(
                        old(self)@,
                        final(self)@,
                        commands@,
                        k as nat,
                    ),
            },
    {
        let ghost mut stages = seq![self@];
        let mut i: usize = 0;
        while i < commands.len()
            invariant
                i <= commands.len(),
                self@.wf(),
                self@.sized_as(old(self)@),
                old(self)@.width > 0,
                old(self)@.height > 0,
                staged(stages, commands@, i as nat),
                stages[0] == old(self)@,
                stages[i as int] == self@,
            decreases commands.len() - i,
        {
            let ghost reached = stages;
            match self.apply(&commands[i]) {
                Ok(()) => {
                    proof {
                        stages = reached.push(self@);
                        assert forall|k: int| 0 <= k < i + 1 implies applied(
                            stages[k],
                            #[trigger] stages[k + 1],
                            commands@[k],
                        ) by {
                            if k < i {
                                assert(applied(reached[k], reached[k + 1], commands@[k]));
                            }
                        }
                    }
                },
                Err(e) => {
                    assert(commands@[i as int].shape == Shape::EffectRect(Effect::Blur));
                    return Err(e);
                },
            }
            i += 1;
        }
        Ok(())
    }
}

/// Whether the picture `after` can be the picture `before` once the drawing
/// call was performed on it: the rectangle or its outline is filled, or
/// every point of the rectangle has the inverse of its colour, or every
/// point of the rectangle shows what a point between the corners of the
/// rectangle, its last column and row included, showed before.
pub open spec fn applied(before: CanvasView, after: CanvasView, command: DrawCommand) -> bool {
    match command.shape {
        Shape::Rect(p) => repainted(
            before,
            after,
            Paint::Fill(p),
            wrapped_rectangle(command.top_left, command.bottom_right, before),
        ),
        Shape::RectOutline(p) => repainted(
            before,
            after,
            Paint::Fill(p),
            wrapped_outline(command.top_left, command.bottom_right, before),
        ),
        Shape::EffectRect(Effect::Inverse) => repainted(
            before,
            after,
            Paint::Inverse,
            wrapped_rectangle(command.top_left, command.bottom_right, before),
        ),
        Shape::EffectRect(Effect::Random) => repainted(
            before,
            after,
            Paint::Random(
                (command.top_left.0 % before.width) as usize,
                (command.bottom_right.0 % before.width) as usize,
                (command.top_left.1 % before.height) as usize,
                (command.bottom_right.1 % before.height) as usize,
            ),
            wrapped_rectangle(command.top_left, command.bottom_right, before),
        ),
        Shape::EffectRect(Effect::Blur) => false,
    }
}

/// Whether the pictures are the stages of performing the first `n` drawing
/// calls in their order: each call makes the next picture of the one
/// before.
pub open spec fn staged(stages: Seq<CanvasView>, commands: Seq<DrawCommand>, n: nat) -> bool {
    &&& stages.len() == n + 1
    &&& n <= commands.len()
    &&& forall|k: int| 0 <= k < n ==> applied(stages[k], #[trigger] stages[k + 1], commands[k])
}

/// Whether the picture `after` can be the picture `before` once the first
/// `n` drawing calls were performed on it in their order.
pub open spec fn performed(
    before: CanvasView,
    after: CanvasView,
    commands: Seq<DrawCommand>,
    n: nat,
) -> bool {
    exists|stages: Seq<CanvasView>|
        #![trigger staged(stages, commands, n)]
        staged(stages, commands, n) && stages[0] == before && stages[n as int] == after
}

} // verus!
