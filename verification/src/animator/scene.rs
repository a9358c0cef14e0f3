//! A scene: objects in layers, drawn on one frame for each point in time.
use super::types::Color;
use vstd::prelude::*;

verus! {

/// A dense buffer of colors, row by row.
#[derive(Debug, Clone)]
pub struct Frame {
    pub buffer: Vec<Vec<Color>>,
}

impl View for Frame {
    type V = Seq<Seq<Color>>;

    /// The rows of the frame from top to bottom.
    open spec fn view(&self) -> Seq<Seq<Color>> {
        Seq::new(self.buffer@.len(), |y: int| self.buffer@[y]@)
    }
}

/// The rows of a frame of `ysize` rows and `xsize` columns on which nothing has been drawn.
pub open spec fn blank_rows(xsize: int, ysize: int) -> Seq<Seq<Color>> {
    Seq::new(ysize as nat, |y: int| Seq::new(xsize as nat, |x: int| Color::RGBA(0, 0, 0, 0)))
}

/// The rows after the pixel at column `x` of row `y` has been given the color
/// `c`; the rows as they are where there is no such pixel.
pub open spec fn rows_with_pixel(rows: Seq<Seq<Color>>, x: int, y: int, c: Color) -> Seq<
    Seq<Color>,
> {
    if 0 <= y < rows.len() && 0 <= x < rows[y].len() {
        rows.update(y, rows[y].update(x, c))
    } else {
        rows
    }
}

/// The rows after every pixel from column `min_x` to `max_x` of the rows
/// `min_y` to `max_y` has been given the color `c`; the last column and the
/// last row belong to the rectangle, and what lies beside the frame does not.
pub open spec fn rows_with_rectangle(
    rows: Seq<Seq<Color>>,
    min_x: int,
    max_x: int,
    min_y: int,
    max_y: int,
    c: Color,
) -> Seq<Seq<Color>> {
    Seq::new(
        rows.len(),
        |y: int|
            Seq::new(
                rows[y].len(),
                |x: int|
                    if min_x <= x <= max_x && min_y <= y <= max_y {
                        c
                    } else {
                        rows[y][x]
                    },
            ),
    )
}

impl Frame {
    /// A frame of transparent black.
    pub fn new(xsize: usize, ysize: usize) -> (frame: Self)
        ensures
            frame@ == blank_rows(xsize as int, ysize as int),
    {
        let mut buffer: Vec<Vec<Color>> = Vec::new();
        let mut y: usize = 0;
        while y < ysize
            invariant
                y <= ysize,
                buffer@.len() == y,
                forall|i: int|
                    0 <= i < y ==> (#[trigger] buffer@[i])@ == Seq::new(
                        xsize as nat,
                        |x: int| Color::RGBA(0, 0, 0, 0),
                    ),
            decreases ysize - y,
        {
            let mut row: Vec<Color> = Vec::new();
            let mut x: usize = 0;
            while x < xsize
                invariant
                    x <= xsize,
                    row@.len() == x,
                    forall|i: int| 0 <= i < x ==> #[trigger] row@[i] == Color::RGBA(0, 0, 0, 0),
                decreases xsize - x,
            {
                row.push(Color::RGBA(0, 0, 0, 0));
                x = x + 1;
            }
            assert(row@ == Seq::new(xsize as nat, |x: int| Color::RGBA(0, 0, 0, 0)));
            buffer.push(row);
            y = y + 1;
        }
        let frame = Frame { buffer };
        assert(frame@ == blank_rows(xsize as int, ysize as int));
        frame
    }

    /// The number of columns: the length of the first row.
    pub fn xsize(&self) -> (xsize: usize)
        ensures
            xsize == if self@.len() > 0 {
                self@[0].len()
            } else {
                0
            },
    {
        if self.buffer.len() > 0 {
            self.buffer[0].len()
        } else {
            0
        }
    }

    /// The number of rows.
    pub fn ysize(&self) -> (ysize: usize)
        ensures
            ysize == self@.len(),
    {
        self.buffer.len()
    }

    /// Gives the pixel at column `x` of row `y` the color `c`. A pixel that
    /// the frame does not have is passed over.
    pub fn put_pixel(&mut self, x: usize, y: usize, c: Color)
        ensures
            final(self)@ == rows_with_pixel(old(self)@, x as int, y as int, c),
    {
        if y < self.buffer.len() {
            if x < self.buffer[y].len() {
                self.buffer[y][x] = c;
                assert(self@ == rows_with_pixel(old(self)@, x as int, y as int, c));
            }
        }
    }
}

impl Frame {
    /// Gives every pixel of the rectangle from column `min_x` to `max_x` and
    /// from row `min_y` to `max_y` the color `c`. The part of the rectangle
    /// that lies beside the frame is passed over.
    pub fn fill_rectangle(
        &mut self,
        min_x: usize,
        max_x: usize,
        min_y: usize,
        max_y: usize,
        c: Color,
    )
        ensures
            final(self)@ == rows_with_rectangle(
                old(self)@,
                min_x as int,
                max_x as int,
                min_y as int,
                max_y as int,
                c,
            ),
    {
        let ghost rows = self@;
        let ghost want = rows_with_rectangle(
            rows,
            min_x as int,
            max_x as int,
            min_y as int,
            max_y as int,
            c,
        );
        let height: usize = self.buffer.len();
        let mut y: usize = 0;
        while y < height
            invariant
                y <= height,
                height == rows.len(),
                self@.len() == height,
                want == rows_with_rectangle(
                    rows,
                    min_x as int,
                    max_x as int,
                    min_y as int,
                    max_y as int,
                    c,
                ),
                forall|i: int| 0 <= i < y ==> (#[trigger] self@[i]) == want[i],
                forall|i: int| y <= i < height ==> (#[trigger] self@[i]) == rows[i],
            decreases height - y,
        {
            if min_y <= y && y <= max_y {
                let width: usize = self.buffer[y].len();
                let ghost row = rows[y as int];
                proof {
                    assert(self@[y as int] == row);
                    assert(self@[y as int] == self.buffer@[y as int]@);
                }
                let mut x: usize = 0;
                while x < width
                    invariant
                        x <= width,
                        y < height,
                        min_y <= y <= max_y,
                        height == rows.len(),
                        self@.len() == height,
                        row == rows[y as int],
                        width == row.len(),
                        self@[y as int].len() == width,
                        want == rows_with_rectangle(
                            rows,
                            min_x as int,
                            max_x as int,
                            min_y as int,
                            max_y as int,
                            c,
                        ),
                        forall|i: int| 0 <= i < y ==> (#[trigger] self@[i]) == want[i],
                        forall|i: int| y < i < height ==> (#[trigger] self@[i]) == rows[i],
                        forall|j: int|
                            0 <= j < x ==> (#[trigger] self@[y as int][j]) == want[y as int][j],
                        forall|j: int| x <= j < width ==> (#[trigger] self@[y as int][j]) == row[j],
                    decreases width - x,
                {
                    if min_x <= x && x <= max_x {
                        let ghost before = self@;
                        self.buffer[y][x] = c;
                        proof {
                            assert(self@ == rows_with_pixel(before, x as int, y as int, c));
                        }
                    }
                    x = x + 1;
                }
                assert(self@[y as int] == want[y as int]);
            } else {
                assert(self@[y as int] == want[y as int]);
            }
            y = y + 1;
        }
        assert(self@ == want);
    }
}

/// An object of a scene. What it draws, and in which layer, is its own affair.
pub trait Draw {
    /// The layer of the object; objects of higher layers are drawn later.
    fn zindex(&self) -> i32;

    /// Draws the object on `frame` as it looks at the point in time `frame_count`.
    fn draw(&self, frame_count: u32, frame: &mut Frame);
}

/// Where an object of layer `z` belongs among the objects `order`, which are
/// in the order of their layers: behind the last one whose layer is not higher.
pub open spec fn layer_position(order: Seq<usize>, layers: Seq<i32>, z: i32) -> int
    decreases order.len(),
{
    if order.len() == 0 {
        0
    } else if layers[order.last() as int] <= z {
        order.len() as int
    } else {
        layer_position(order.drop_last(), layers, z)
    }
}

/// The order in which objects of the given layers are drawn: by layer, and
/// objects of one layer in the order in which they were added. Each object
/// is named by its index.
pub open spec fn by_layer(layers: Seq<i32>) -> Seq<usize>
    decreases layers.len(),
{
    if layers.len() == 0 {
        Seq::empty()
    } else {
        let order = by_layer(layers.drop_last());
        order.insert(
            layer_position(order, layers, layers.last()),
            (layers.len() - 1) as usize,
        )
    }
}

/// Every object of `order` is drawn before the objects behind it: it is of
/// a lower layer, or of the same layer and was added earlier.
pub open spec fn drawn_in_order(order: Seq<usize>, layers: Seq<i32>) -> bool {
    &&& forall|i: int| 0 <= i < order.len() ==> (#[trigger] order[i]) < layers.len()
    &&& forall|i: int, j: int|
        0 <= i < j < order.len() ==> {
            ||| layers[(#[trigger] order[i]) as int] < layers[(#[trigger] order[j]) as int]
            ||| layers[order[i] as int] == layers[order[j] as int] && order[i] < order[j]
        }
}

/// Where an object belongs, the objects before it are not of a higher layer
/// and the objects behind it are.
pub proof fn lemma_layer_position(order: Seq<usize>, layers: Seq<i32>, z: i32)
    requires
        drawn_in_order(order, layers),
    ensures
        0 <= layer_position(order, layers, z) <= order.len(),
        forall|i: int|
            0 <= i < layer_position(order, layers, z) ==> layers[(#[trigger] order[i]) as int] <= z,
        forall|i: int|
            layer_position(order, layers, z) <= i < order.len() ==> layers[(
            #[trigger] order[i]) as int] > z,
    decreases order.len(),
{
    if order.len() > 0 {
        let front = order.drop_last();
        assert forall|i: int| 0 <= i < front.len() implies front[i] == order[i] by {}
        assert(drawn_in_order(front, layers));
        lemma_layer_position(front, layers, z);
        if layers[order.last() as int] <= z {
            assert forall|i: int| 0 <= i < order.len() implies layers[(
            #[trigger] order[i]) as int] <= z by {
                if i < order.len() - 1 {
                    assert(layers[order[i] as int] <= layers[order[order.len() - 1] as int]);
                }
            }
        }
    }
}

/// The order of drawing names every object once, and in it every object
/// comes before the objects of higher layers and before the objects of its
/// own layer that were added later.
pub proof fn lemma_by_layer(layers: Seq<i32>)
    requires
        layers.len() <= usize::MAX,
    ensures
        by_layer(layers).len() == layers.len(),
        drawn_in_order(by_layer(layers), layers),
        by_layer(layers).no_duplicates(),
    decreases layers.len(),
{
    if layers.len() > 0 {
        let front = layers.drop_last();
        let order = by_layer(front);
        let z = layers.last();
        let index = (layers.len() - 1) as usize;
        lemma_by_layer(front);
        assert forall|i: int| 0 <= i < front.len() implies front[i] == layers[i] by {}
        assert(drawn_in_order(order, layers));
        let at = layer_position(order, layers, z);
        assert(layer_position(order, front, z) == at) by {
            lemma_layer_position_same(order, front, layers, z);
        }
        lemma_layer_position(order, layers, z);
        order.insert_ensures(at, index);
        let all = order.insert(at, index);
        assert(all == by_layer(layers)) by {
            lemma_layer_position_same(order, front, layers, z);
        }
        assert forall|i: int| 0 <= i < all.len() implies (#[trigger] all[i]) < layers.len() by {
            if i < at {
                assert(all[i] == order[i]);
            } else if i > at {
                assert(all[(i - 1) + 1] == order[i - 1]);
            }
        }
        assert forall|i: int, j: int| 0 <= i < j < all.len() implies {
            ||| layers[(#[trigger] all[i]) as int] < layers[(#[trigger] all[j]) as int]
            ||| layers[all[i] as int] == layers[all[j] as int] && all[i] < all[j]
        } by {
            if i < at {
                assert(all[i] == order[i]);
            } else if i > at {
                assert(all[(i - 1) + 1] == order[i - 1]);
            }
            if j < at {
                assert(all[j] == order[j]);
            } else if j > at {
                assert(all[(j - 1) + 1] == order[j - 1]);
            }
        }
        assert forall|i: int, j: int|
            0 <= i < all.len() && 0 <= j < all.len() && i != j implies all[i] != all[j] by {
            if i < j {
                assert(layers[all[i] as int] < layers[all[j] as int] || all[i] < all[j]);
            } else {
                assert(layers[all[j] as int] < layers[all[i] as int] || all[j] < all[i]);
            }
        }
    }
}

/// Where an object belongs depends on the layers of the objects that are there.
pub proof fn lemma_layer_position_same(order: Seq<usize>, front: Seq<i32>, layers: Seq<i32>, z: i32)
    requires
        front.len() <= layers.len(),
        forall|i: int| 0 <= i < front.len() ==> front[i] == layers[i],
        forall|i: int| 0 <= i < order.len() ==> (#[trigger] order[i]) < front.len(),
    ensures
        layer_position(order, front, z) == layer_position(order, layers, z),
    decreases order.len(),
{
    if order.len() > 0 {
        let shorter = order.drop_last();
        assert forall|i: int| 0 <= i < shorter.len() implies (#[trigger] shorter[i])
            < front.len() by {
            assert(shorter[i] == order[i]);
        }
        lemma_layer_position_same(shorter, front, layers, z);
        assert(order[order.len() - 1] < front.len());
    }
}

/// Objects in layers, and the size and number of the frames to draw them on.
pub struct Scene<D: Draw> {
    objects: Vec<D>,
    xsize: usize,
    ysize: usize,
    frame_count: u32,
}

impl<D: Draw> Scene<D> {
    /// The objects in the order in which they were added.
    pub closed spec fn objects(&self) -> Seq<D> {
        self.objects@
    }

    pub closed spec fn xsize(&self) -> usize {
        self.xsize
    }

    pub closed spec fn ysize(&self) -> usize {
        self.ysize
    }

    pub closed spec fn frame_count(&self) -> u32 {
        self.frame_count
    }

    pub fn new(xsize: usize, ysize: usize, frame_count: u32) -> (scene: Self)
        ensures
            scene.objects() == Seq::<D>::empty(),
            scene.xsize() == xsize,
            scene.ysize() == ysize,
            scene.frame_count() == frame_count,
    {
        Self { objects: Vec::new(), xsize, ysize, frame_count }
    }

    pub fn add_object(&mut self, object: D)
        ensures
            final(self).objects() == old(self).objects().push(object),
            final(self).xsize() == old(self).xsize(),
            final(self).ysize() == old(self).ysize(),
            final(self).frame_count() == old(self).frame_count(),
    {
        self.objects.push(object);
    }

    /// Draws the scene: one frame for each point in time, and on each frame
    /// every object, the lower layers first and the objects of one layer in
    /// the order in which they were added. What is on the frames is what the
    /// objects have drawn.
    pub fn render(self) -> (frames: Vec<Frame>)
        ensures
            frames@.len() == self.frame_count(),
    {
        let total: usize = self.objects.len();
        let mut layers: Vec<i32> = Vec::new();
        let mut n: usize = 0;
        while n < total
            invariant
                total == self.objects@.len(),
                n <= total,
                layers@.len() == n,
            decreases total - n,
        {
            layers.push(self.objects[n].zindex());
            n = n + 1;
        }
        let order = layer_order(&layers);
        proof {
            lemma_by_layer(layers@);
        }
        let mut frames: Vec<Frame> = Vec::new();
        let mut frame_counter: u32 = 0;
        while frame_counter < self.frame_count
            invariant
                frame_counter <= self.frame_count,
                total == self.objects@.len(),
                order@.len() == total,
                forall|i: int| 0 <= i < order@.len() ==> (#[trigger] order@[i]) < total,
                frames@.len() == frame_counter,
            decreases self.frame_count - frame_counter,
        {
            let mut frame = Frame::new(self.xsize, self.ysize);
            let mut i: usize = 0;
            while i < total
                invariant
                    i <= total,
                    total == self.objects@.len(),
                    order@.len() == total,
                    forall|k: int| 0 <= k < order@.len() ==> (#[trigger] order@[k]) < total,
                decreases total - i,
            {
                self.objects[order[i]].draw(frame_counter, &mut frame);
                i = i + 1;
            }
            frames.push(frame);
            frame_counter = frame_counter + 1;
        }
        frames
    }
}

/// Finds the order in which objects of the given layers are drawn.
pub fn layer_order(layers: &Vec<i32>) -> (order: Vec<usize>)
    ensures
        order@ == by_layer(layers@),
{
    let total: usize = layers.len();
    let mut order: Vec<usize> = Vec::new();
    let mut n: usize = 0;
    proof {
        assert(layers@.take(0) == Seq::<i32>::empty());
    }
    while n < total
        invariant
            total == layers@.len(),
            n <= total,
            order@ == by_layer(layers@.take(n as int)),
        decreases total - n,
    {
        let z: i32 = layers[n];
        let ghost upto = layers@.take(n as int);
        let ghost before = order@;
        proof {
            lemma_by_layer(upto);
        }
        let mut at: usize = order.len();
        proof {
            assert(before.take(at as int) == before);
        }
        while at > 0 && layers[order[at - 1]] > z
            invariant
                total == layers@.len(),
                n < total,
                upto == layers@.take(n as int),
                at <= order@.len(),
                order@ == before,
                drawn_in_order(before, upto),
                layer_position(before, upto, z) == layer_position(before.take(at as int), upto, z),
            decreases at,
        {
            proof {
                assert(before.take(at as int).drop_last() == before.take(at - 1));
                assert(before.take(at as int).last() == before[at - 1]);
                assert(before[at - 1] < upto.len());
            }
            at = at - 1;
        }
        proof {
            if at > 0 {
                assert(before.take(at as int).last() == before[at - 1]);
                assert(before[at - 1] < upto.len());
            }
            let longer = layers@.take(n + 1);
            assert(longer.drop_last() == upto);
            assert(longer.last() == z);
            lemma_layer_position_same(before, upto, longer, z);
        }
        order.insert(at, n);
        n = n + 1;
    }
    proof {
        assert(layers@.take(total as int) == layers@);
    }
    order
}

} // verus!
