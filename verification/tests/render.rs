use pathtracer::error::ConfigError;
use pathtracer::color::{clamp_channel, Color, CHANNEL_CEILING};
use pathtracer::render::{
    collect, image_row, job_at, jobs, render, sample_pixel, Job, PixelResult, RenderError,
};
use pathtracer::scalar::{from_bits, to_bits};

fn key(value: f64) -> i64 {
    from_bits(value.to_bits())
}

fn number(key: i64) -> f64 {
    f64::from_bits(to_bits(key))
}

fn results(width: u32, height: u32) -> Vec<PixelResult<u32>> {
    jobs(width, height)
        .unwrap()
        .iter()
        .map(|job| PixelResult { x: job.x, y: job.y, color: 100 * job.y + job.x })
        .collect()
}

#[test]
fn one_job_for_each_pixel() {
    let list = jobs(3, 2).unwrap();
    let expected = vec![
        Job { x: 0, y: 0 },
        Job { x: 1, y: 0 },
        Job { x: 2, y: 0 },
        Job { x: 0, y: 1 },
        Job { x: 1, y: 1 },
        Job { x: 2, y: 1 },
    ];
    assert_eq!(list, expected);
    assert_eq!(jobs(20, 10).unwrap().len(), 200);
    for (index, job) in jobs(7, 5).unwrap().iter().enumerate() {
        assert_eq!(*job, job_at(index, 7));
    }
}

#[test]
fn a_job_number_gives_column_and_row() {
    assert_eq!(job_at(0, 300), Job { x: 0, y: 0 });
    assert_eq!(job_at(299, 300), Job { x: 299, y: 0 });
    assert_eq!(job_at(300, 300), Job { x: 0, y: 1 });
    assert_eq!(job_at(59_999, 300), Job { x: 299, y: 199 });
}

#[test]
fn a_frame_without_pixels_has_no_jobs() {
    assert_eq!(jobs(0, 10), Err(ConfigError::ZeroDimensions));
    assert_eq!(jobs(10, 0), Err(ConfigError::ZeroDimensions));
    assert_eq!(jobs(0, 0), Err(ConfigError::ZeroDimensions));
    let none: Vec<PixelResult<u32>> = Vec::new();
    assert_eq!(collect(0, 10, &none), Err(RenderError::Config(ConfigError::ZeroDimensions)));
    assert_eq!(collect(10, 0, &none), Err(RenderError::Config(ConfigError::ZeroDimensions)));
    assert_eq!(
        collect(0, 0, &results(2, 2)),
        Err(RenderError::Config(ConfigError::ZeroDimensions))
    );
}

#[test]
fn the_bottom_row_of_the_frame_is_the_last_row_of_the_image() {
    assert_eq!(image_row(10, 0), 9);
    assert_eq!(image_row(10, 9), 0);
    assert_eq!(image_row(10, 3), 6);
    assert_eq!(image_row(1, 0), 0);
}

#[test]
fn results_are_put_in_their_places() {
    let image = collect(3, 2, &results(3, 2)).unwrap();
    assert_eq!(image, vec![vec![100, 101, 102], vec![0, 1, 2]]);
    let image = collect(1, 1, &results(1, 1)).unwrap();
    assert_eq!(image, vec![vec![0]]);
}

#[test]
fn the_order_of_arrival_does_not_matter() {
    let (width, height) = (20, 10);
    let in_order = results(width, height);
    let expected = collect(width, height, &in_order).unwrap();
    assert_eq!(expected.len(), 10);
    for (row, line) in expected.iter().enumerate() {
        assert_eq!(line.len(), 20);
        for (x, color) in line.iter().enumerate() {
            assert_eq!(*color as usize, 100 * (9 - row) + x);
        }
    }
    let mut reversed = in_order.clone();
    reversed.reverse();
    assert_eq!(collect(width, height, &reversed).unwrap(), expected);
    let mut shuffled = in_order.clone();
    let mut state = 12345u64;
    for i in (1..shuffled.len()).rev() {
        state = state.wrapping_mul(6364136223846793005).wrapping_add(1442695040888963407);
        shuffled.swap(i, (state >> 33) as usize % (i + 1));
    }
    assert_eq!(collect(width, height, &shuffled).unwrap(), expected);
    let mut interleaved: Vec<PixelResult<u32>> = Vec::new();
    for worker in 0..7 {
        interleaved.extend(in_order.iter().skip(worker).step_by(7).copied());
    }
    assert_eq!(collect(width, height, &interleaved).unwrap(), expected);
}

#[test]
fn a_result_outside_the_frame_is_refused() {
    let mut list = results(3, 2);
    list[4].x = 3;
    assert_eq!(collect(3, 2, &list), Err(RenderError::OutOfFrame));
    let mut list = results(3, 2);
    list[0].y = 2;
    assert_eq!(collect(3, 2, &list), Err(RenderError::OutOfFrame));
    let mut list = results(3, 2);
    list.push(PixelResult { x: 0, y: 0, color: 1 });
    list.push(PixelResult { x: 9, y: 9, color: 1 });
    assert_eq!(collect(3, 2, &list), Err(RenderError::OutOfFrame));
}

#[test]
fn two_results_for_one_pixel_are_refused() {
    let mut list = results(3, 2);
    list.push(PixelResult { x: 1, y: 1, color: 101 });
    assert_eq!(collect(3, 2, &list), Err(RenderError::Duplicate));
    let mut list = results(3, 2);
    list[5] = PixelResult { x: 0, y: 0, color: 55 };
    assert_eq!(collect(3, 2, &list), Err(RenderError::Duplicate));
}

#[test]
fn a_pixel_without_a_result_is_refused() {
    let mut list = results(3, 2);
    list.pop();
    assert_eq!(collect(3, 2, &list), Err(RenderError::Missing));
    let none: Vec<PixelResult<u32>> = Vec::new();
    assert_eq!(collect(1, 1, &none), Err(RenderError::Missing));
}

#[test]
fn channels_are_cut_down_to_what_can_be_written() {
    assert_eq!(number(clamp_channel(key(0.25))), 0.25);
    assert_eq!(number(clamp_channel(key(0.0))), 0.0);
    assert_eq!(number(clamp_channel(key(-0.25))), 0.0);
    assert_eq!(number(clamp_channel(key(0.9999999))), 0.9999999);
    assert_eq!(number(clamp_channel(key(1.0))), 0.9999999);
    assert_eq!(number(clamp_channel(key(17.0))), 0.9999999);
    assert_eq!(number(clamp_channel(key(f64::INFINITY))), 0.9999999);
    assert_eq!(number(clamp_channel(key(f64::NEG_INFINITY))), 0.0);
    assert_eq!(number(clamp_channel(key(f64::NAN))), 0.0);
    assert_eq!(clamp_channel(key(2.0)), CHANNEL_CEILING);
    for value in [0.0, 0.1, 0.5, 0.9, 0.9999999, 1.5, -3.0] {
        assert_eq!(number(clamp_channel(key(value))), value.clamp(0.0, 0.9999999));
        assert!((number(clamp_channel(key(value))) * 255.0).round() <= 255.0);
    }
}

#[test]
fn one_worker_renders_from_the_top_left() {
    let asked = std::cell::RefCell::new(Vec::new());
    let pixel = |x: u32, y: u32| {
        asked.borrow_mut().push((x, y));
        100 * y + x
    };
    let image = render(3, 2, &pixel).unwrap();
    assert_eq!(image, vec![vec![100, 101, 102], vec![0, 1, 2]]);
    assert_eq!(*asked.borrow(), vec![(0, 1), (1, 1), (2, 1), (0, 0), (1, 0), (2, 0)]);
}

#[test]
fn one_worker_renders_what_many_workers_render() {
    let pixel = |x: u32, y: u32| 100 * y + x;
    for (width, height) in [(1, 1), (1, 7), (7, 1), (20, 10)] {
        let alone = render(width, height, &pixel).unwrap();
        let mut together = results(width, height);
        together.reverse();
        assert_eq!(collect(width, height, &together).unwrap(), alone);
    }
}

#[test]
fn nothing_is_rendered_without_pixels() {
    let pixel = |_: u32, _: u32| -> u32 { unreachable!() };
    assert_eq!(render(0, 5, &pixel), Err(ConfigError::ZeroDimensions));
    assert_eq!(render(5, 0, &pixel), Err(ConfigError::ZeroDimensions));
}

#[test]
fn a_pixel_is_sampled_as_often_as_asked() {
    let drawn = std::cell::Cell::new(0u32);
    let sample = |x: u32, y: u32| {
        assert_eq!((x, y), (3, 4));
        drawn.set(drawn.get() + 1);
        drawn.get() as f64
    };
    let plus = |sum: f64, color: f64| sum * 10.0 + color;
    let job = Job { x: 3, y: 4 };
    assert_eq!(sample_pixel(job, 4, &sample, &plus, 0.0), 1234.0);
    assert_eq!(drawn.get(), 4);
    assert_eq!(sample_pixel(job, 0, &sample, &plus, 7.5), 7.5);
    assert_eq!(drawn.get(), 4);
    assert_eq!(sample_pixel(job, 1, &sample, &plus, 0.0), 5.0);
}

#[test]
fn a_colour_is_cut_down_channel_by_channel() {
    let color = Color::new(key(1.5), key(-0.5), key(0.25));
    assert_eq!(color.clamp(), Color::new(key(0.9999999), key(0.0), key(0.25)));
    assert_eq!(Color::black(), Color::new(key(0.0), key(0.0), key(0.0)));
    assert_eq!(Color::white(), Color::new(key(1.0), key(1.0), key(1.0)));
    assert_eq!(Color::white().clamp(), Color::new(key(0.9999999), key(0.9999999), key(0.9999999)));
}
