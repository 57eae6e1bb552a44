use lumen::rendering::renderer::pixel_indexes;
use lumen::runtime::workpool::BaseQueue;
use lumen::{Image, Job, Pixel, Renderer, WorkConfig};

struct Coordinates;

impl Job<(usize, usize), Pixel> for Coordinates {
    fn run(&self, input: &(usize, usize)) -> Pixel {
        Pixel::new(input.0 as u8, input.1 as u8, 200)
    }
}

struct FourByTwo;

impl WorkConfig for FourByTwo {
    const THREAD_COUNT: usize = 2;
    const BATCH_COUNT: usize = 4;

    type Input = (usize, usize);
    type Output = Pixel;
    type Job = Coordinates;
    type Queue = BaseQueue<(usize, usize)>;
}

#[test]
fn pixel_keeps_its_channels() {
    let pixel = Pixel::new(1, 2, 3);
    assert_eq!(pixel.r, 1);
    assert_eq!(pixel.g, 2);
    assert_eq!(pixel.b, 3);
    assert_eq!(pixel.to_rgb(), (1, 2, 3));
    assert_eq!(Pixel::new(255, 0, 255).to_rgb(), (255, 0, 255));
}

#[test]
fn default_pixel_is_black() {
    assert_eq!(Pixel::default(), Pixel::new(0, 0, 0));
    assert_eq!(Pixel::default().to_rgb(), (0, 0, 0));
}

#[test]
fn new_image_is_black_and_has_the_size_asked_for() {
    let image = Image::new(3, 2);
    assert_eq!(image.cols, 3);
    assert_eq!(image.rows, 2);
    assert_eq!(image.data.len(), 6);
    for pixel in &image.data {
        assert_eq!(*pixel, Pixel::new(0, 0, 0));
    }
}

#[test]
fn image_without_pixels() {
    assert!(Image::new(0, 5).data.is_empty());
    assert!(Image::new(5, 0).data.is_empty());
    assert!(Image::new(0, 0).data.is_empty());
}

#[test]
fn image_is_kept_row_by_row() {
    let mut image = Image::new(3, 2);
    image.set(0, 0, Pixel::new(1, 0, 0));
    image.set(0, 2, Pixel::new(2, 0, 0));
    image.set(1, 0, Pixel::new(3, 0, 0));
    image.set(1, 2, Pixel::new(4, 0, 0));
    assert_eq!(image.data[0], Pixel::new(1, 0, 0));
    assert_eq!(image.data[2], Pixel::new(2, 0, 0));
    assert_eq!(image.data[3], Pixel::new(3, 0, 0));
    assert_eq!(image.data[5], Pixel::new(4, 0, 0));
    assert_eq!(*image.get(0, 0), Pixel::new(1, 0, 0));
    assert_eq!(*image.get(0, 2), Pixel::new(2, 0, 0));
    assert_eq!(*image.get(1, 0), Pixel::new(3, 0, 0));
    assert_eq!(*image.get(1, 2), Pixel::new(4, 0, 0));
    assert_eq!(*image.get(0, 1), Pixel::new(0, 0, 0));
    assert_eq!(image.rows, 2);
    assert_eq!(image.cols, 3);
}

#[test]
fn pixel_indexes_go_row_by_row() {
    assert_eq!(
        pixel_indexes(3, 2),
        vec![(0, 0), (0, 1), (0, 2), (1, 0), (1, 1), (1, 2)]
    );
    assert_eq!(pixel_indexes(1, 3), vec![(0, 0), (1, 0), (2, 0)]);
    assert_eq!(pixel_indexes(2, 1), vec![(0, 0), (0, 1)]);
}

#[test]
fn pixel_indexes_of_an_empty_grid() {
    assert!(pixel_indexes(0, 4).is_empty());
    assert!(pixel_indexes(4, 0).is_empty());
}

#[test]
fn renderer_tells_which_sizes_it_can_render() {
    assert!(Renderer::<FourByTwo>::new(Coordinates, 2, 2).can_render());
    assert!(Renderer::<FourByTwo>::new(Coordinates, 4, 3).can_render());
    assert!(Renderer::<FourByTwo>::new(Coordinates, 0, 0).can_render());
    assert!(!Renderer::<FourByTwo>::new(Coordinates, 3, 3).can_render());
    assert!(!Renderer::<FourByTwo>::new(Coordinates, 1, 2).can_render());
    assert!(!Renderer::<FourByTwo>::new(Coordinates, usize::MAX, 4).can_render());
}

#[test]
fn rendered_image_has_the_renderer_size_and_one_pixel_for_each_coordinate() {
    let renderer = Renderer::<FourByTwo>::new(Coordinates, 4, 3);
    let image = renderer.render();
    assert_eq!(image.cols, 4);
    assert_eq!(image.rows, 3);
    assert_eq!(image.data.len(), 12);
    for i in 0..3 {
        for j in 0..4 {
            assert_eq!(*image.get(i, j), Pixel::new(i as u8, j as u8, 200));
        }
    }
}

#[test]
fn two_by_two_render_is_the_same_each_time() {
    let renderer = Renderer::<FourByTwo>::new(Coordinates, 2, 2);
    let first = renderer.render();
    let second = renderer.render();
    assert_eq!(first.data, second.data);
    assert_eq!(
        first.data,
        vec![
            Pixel::new(0, 0, 200),
            Pixel::new(0, 1, 200),
            Pixel::new(1, 0, 200),
            Pixel::new(1, 1, 200)
        ]
    );
}

#[test]
fn pixmap_text_of_a_small_image() {
    let mut image = Image::new(2, 2);
    image.set(0, 0, Pixel::new(1, 2, 3));
    image.set(0, 1, Pixel::new(40, 50, 60));
    image.set(1, 0, Pixel::new(0, 9, 10));
    image.set(1, 1, Pixel::new(99, 100, 255));
    let text = String::from_utf8(image.to_ppm()).unwrap();
    assert_eq!(text, "P3\n2 2\n255\n1 2 3 40 50 60\n0 9 10 99 100 255");
}

#[test]
fn pixmap_text_of_one_row_and_of_one_column() {
    let mut row = Image::new(3, 1);
    row.set(0, 1, Pixel::new(7, 7, 7));
    assert_eq!(String::from_utf8(row.to_ppm()).unwrap(), "P3\n3 1\n255\n0 0 0 7 7 7 0 0 0");
    let mut column = Image::new(1, 3);
    column.set(2, 0, Pixel::new(255, 0, 128));
    assert_eq!(
        String::from_utf8(column.to_ppm()).unwrap(),
        "P3\n1 3\n255\n0 0 0\n0 0 0\n255 0 128"
    );
}

#[test]
fn pixmap_text_of_an_image_without_pixels() {
    assert_eq!(String::from_utf8(Image::new(0, 0).to_ppm()).unwrap(), "P3\n0 0\n255\n");
    assert_eq!(String::from_utf8(Image::new(0, 3).to_ppm()).unwrap(), "P3\n0 3\n255\n\n\n");
    assert_eq!(String::from_utf8(Image::new(12, 0).to_ppm()).unwrap(), "P3\n12 0\n255\n");
}

#[test]
fn pixmap_text_is_the_same_each_time() {
    let renderer = Renderer::<FourByTwo>::new(Coordinates, 4, 2);
    let image = renderer.render();
    assert_eq!(image.to_ppm(), image.to_ppm());
    assert_eq!(
        String::from_utf8(image.to_ppm()).unwrap(),
        "P3\n4 2\n255\n0 0 200 0 1 200 0 2 200 0 3 200\n1 0 200 1 1 200 1 2 200 1 3 200"
    );
}
