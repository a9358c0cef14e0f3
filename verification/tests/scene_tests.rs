use gif_encoder::animator::scene::{layer_order, Draw, Frame, Scene};
use gif_encoder::animator::types::Color;

struct Dot {
    x: usize,
    y: usize,
    layer: i32,
    color: Color,
}

impl Draw for Dot {
    fn zindex(&self) -> i32 {
        self.layer
    }

    fn draw(&self, frame_count: u32, frame: &mut Frame) {
        frame.put_pixel(self.x + frame_count as usize, self.y, self.color);
    }
}

#[test]
fn frame_sizes_and_pixels() {
    let mut frame = Frame::new(3, 2);
    assert_eq!(frame.xsize(), 3);
    assert_eq!(frame.ysize(), 2);
    assert_eq!(frame.buffer[1][2], Color::RGBA(0, 0, 0, 0));
    frame.put_pixel(2, 1, Color::RGB(1, 2, 3));
    assert_eq!(frame.buffer[1][2], Color::RGB(1, 2, 3));
    // a pixel that the frame does not have is passed over
    frame.put_pixel(3, 1, Color::HEX(7));
    frame.put_pixel(0, 2, Color::HEX(7));
    assert_eq!(frame.buffer[0], vec![Color::RGBA(0, 0, 0, 0); 3]);
    assert_eq!(
        frame.buffer[1],
        vec![Color::RGBA(0, 0, 0, 0), Color::RGBA(0, 0, 0, 0), Color::RGB(1, 2, 3)]
    );
    let empty = Frame::new(4, 0);
    assert_eq!(empty.xsize(), 0);
    assert_eq!(empty.ysize(), 0);
}

#[test]
fn objects_are_ordered_by_layer_and_stay_in_order() {
    assert_eq!(layer_order(&vec![2, 1, 2, 1, -5]), vec![4, 1, 3, 0, 2]);
    assert_eq!(layer_order(&vec![]), Vec::<usize>::new());
    assert_eq!(layer_order(&vec![7, 7, 7]), vec![0, 1, 2]);
    assert_eq!(layer_order(&vec![3, 2, 1]), vec![2, 1, 0]);
}

#[test]
fn render_draws_higher_layers_last() {
    let mut scene = Scene::new(4, 1, 3);
    scene.add_object(Dot { x: 0, y: 0, layer: 5, color: Color::RGB(5, 5, 5) });
    scene.add_object(Dot { x: 0, y: 0, layer: 1, color: Color::RGB(1, 1, 1) });
    scene.add_object(Dot { x: 1, y: 0, layer: 0, color: Color::RGB(9, 9, 9) });
    let frames = scene.render();
    assert_eq!(frames.len(), 3);
    let blank = Color::RGBA(0, 0, 0, 0);
    assert_eq!(
        frames[0].buffer[0],
        vec![Color::RGB(5, 5, 5), Color::RGB(9, 9, 9), blank, blank]
    );
    assert_eq!(
        frames[1].buffer[0],
        vec![blank, Color::RGB(5, 5, 5), Color::RGB(9, 9, 9), blank]
    );
    assert_eq!(
        frames[2].buffer[0],
        vec![blank, blank, Color::RGB(5, 5, 5), Color::RGB(9, 9, 9)]
    );
}
