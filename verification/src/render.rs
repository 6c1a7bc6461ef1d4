//! Handing out the pixels of a frame as jobs and putting the results
//! together again, in whatever order they come back.
use crate::error::ConfigError;
use vstd::prelude::*;

verus! {

/// One pixel to be computed: column `x`, counted from the left, and row
/// `y`, counted from the bottom of the frame.
#[derive(Clone, Copy, Debug, PartialEq, Eq, Structural)]
pub struct Job {
    pub x: u32,
    pub y: u32,
}

/// A computed pixel: the job's column and row, and the colour found.
#[derive(Clone, Copy, Debug)]
pub struct PixelResult<T> {
    pub x: u32,
    pub y: u32,
    pub color: T,
}

/// Why results could not be put together into a frame.
#[derive(Clone, Copy, Debug, PartialEq, Eq, Structural)]
pub enum RenderError {
    /// The frame itself is misconfigured.
    Config(ConfigError),
    /// A result lies outside the frame.
    OutOfFrame,
    /// Two results are for the same pixel.
    Duplicate,
    /// A pixel of the frame has no result.
    Missing,
}

/// The job with a given number, counting along the rows from the bottom left.
pub open spec fn job_of(index: int, image_width: int) -> Job {
    Job { x: (index % image_width) as u32, y: (index / image_width) as u32 }
}

/// The row of the image, counted from the top, that holds row `y` of the
/// frame, counted from the bottom.
pub open spec fn flipped(image_height: int, y: int) -> int {
    image_height - 1 - y
}

/// Whether a result is for the pixel in column `x` and row `y`.
pub open spec fn is_for<T>(result: PixelResult<T>, x: int, y: int) -> bool {
    result.x == x && result.y == y
}

/// Whether every result lies in the frame.
pub open spec fn all_in_frame<T>(
    results: Seq<PixelResult<T>>,
    image_width: nat,
    image_height: nat,
) -> bool {
    forall|k: int|
        0 <= k < results.len() ==> (#[trigger] results[k]).x < image_width && results[k].y
            < image_height
}

/// Whether no two results are for the same pixel.
pub open spec fn all_distinct<T>(results: Seq<PixelResult<T>>) -> bool {
    forall|j: int, k: int|
        #![trigger results[j], results[k]]
        0 <= j < k < results.len() ==> !is_for(results[k], results[j].x as int, results[j].y as int)
}

/// Whether every pixel of the frame has a result.
pub open spec fn all_present<T>(
    results: Seq<PixelResult<T>>,
    image_width: nat,
    image_height: nat,
) -> bool {
    forall|x: int, y: int|
        0 <= x < image_width && 0 <= y < image_height ==> #[trigger] has_result(results, x, y)
}

/// Whether some result is for the pixel in column `x` and row `y`.
pub open spec fn has_result<T>(results: Seq<PixelResult<T>>, x: int, y: int) -> bool {
    exists|k: int| 0 <= k < results.len() && is_for(#[trigger] results[k], x, y)
}

/// The colour that the results give for the pixel in column `x` and row `y`.
pub open spec fn color_at<T>(results: Seq<PixelResult<T>>, x: int, y: int) -> T {
    results[choose|k: int| 0 <= k < results.len() && is_for(#[trigger] results[k], x, y)].color
}

/// The image that the results make up: its rows from the top, each from
/// the left, so that row `r` of the image is row `image_height - 1 - r` of
/// the frame.
pub open spec fn image_of<T>(
    results: Seq<PixelResult<T>>,
    image_width: nat,
    image_height: nat,
) -> Seq<Seq<T>> {
    Seq::new(
        image_height,
        |row: int|
            Seq::new(image_width, |x: int| color_at(results, x, flipped(image_height as int, row))),
    )
}

/// What putting results together comes to. A frame without pixels is a
/// configuration error. Otherwise the results must lie in the frame, no two
/// may be for the same pixel, and no pixel may be without one; the image is
/// then made up of them, wherever in the sequence each stands.
pub open spec fn collected<T>(
    results: Seq<PixelResult<T>>,
    image_width: nat,
    image_height: nat,
) -> Result<Seq<Seq<T>>, RenderError> {
    if image_width == 0 || image_height == 0 {
        Err(RenderError::Config(ConfigError::ZeroDimensions))
    } else if !all_in_frame(results, image_width, image_height) {
        Err(RenderError::OutOfFrame)
    } else if !all_distinct(results) {
        Err(RenderError::Duplicate)
    } else if !all_present(results, image_width, image_height) {
        Err(RenderError::Missing)
    } else {
        Ok(image_of(results, image_width, image_height))
    }
}

/// The rows of an image as sequences.
pub open spec fn rows_of<T>(image: Vec<Vec<T>>) -> Seq<Seq<T>> {
    Seq::new(image@.len(), |row: int| image@[row]@)
}

/// The row of the image, counted from the top, for a row of the frame,
/// counted from the bottom.
pub fn image_row(image_height: u32, y: u32) -> (row: u32)
    requires
        y < image_height,
    ensures
        row == flipped(image_height as int, y as int),
        row < image_height,
{
    image_height - 1 - y
}

/// The job with a given number.
pub fn job_at(index: usize, image_width: u32) -> (job: Job)
    requires
        image_width > 0,
        index / (image_width as usize) <= u32::MAX,
    ensures
        job == job_of(index as int, image_width as int),
{
    Job { x: (index % (image_width as usize)) as u32, y: (index / (image_width as usize)) as u32 }
}

/// Lists the jobs of a frame: one for each pixel, row after row from the
/// bottom, each row from the left.
pub fn jobs(image_width: u32, image_height: u32) -> (listed: Result<Vec<Job>, ConfigError>)
    requires
        image_width * image_height <= usize::MAX,
    ensures
        listed is Err <==> image_width == 0 || image_height == 0,
        listed matches Err(e) ==> e == ConfigError::ZeroDimensions,
        listed matches Ok(list) ==> {
            &&& list@.len() == image_width * image_height
            &&& forall|i: int|
                0 <= i < list@.len() ==> (#[trigger] list@[i]) == job_of(i, image_width as int)
        },
{
    if image_width == 0 || image_height == 0 {
        return Err(ConfigError::ZeroDimensions);
    }
    let mut list: Vec<Job> = Vec::new();
    let mut y: u32 = 0;
    while y < image_height
        invariant
            y <= image_height,
            image_width > 0,
            list@.len() == y * image_width,
            forall|i: int| 0 <= i < list@.len() ==> (#[trigger] list@[i]) == job_of(
                i,
                image_width as int,
            ),
        decreases image_height - y,
    {
        let mut x: u32 = 0;
        while x < image_width
            invariant
                x <= image_width,
                y < image_height,
                image_width > 0,
                list@.len() == y * image_width + x,
                forall|i: int| 0 <= i < list@.len() ==> (#[trigger] list@[i]) == job_of(
                    i,
                    image_width as int,
                ),
            decreases image_width - x,
        {
            proof {
                vstd::arithmetic::div_mod::lemma_fundamental_div_mod_converse(
                    y * image_width + x,
                    image_width as int,
                    y as int,
                    x as int,
                );
            }
            list.push(Job { x, y });
            x = x + 1;
        }
        proof {
            assert(y * image_width + image_width == (y + 1) * image_width) by (nonlinear_arith);
        }
        y = y + 1;
    }
    proof {
        assert(image_height * image_width == image_width * image_height) by (nonlinear_arith);
    }
    Ok(list)
}

/// A row of `image_width` cells that hold nothing yet.
fn empty_row<T>(image_width: u32) -> (row: Vec<Option<T>>)
    ensures
        row@.len() == image_width,
        forall|x: int| 0 <= x < row@.len() ==> (#[trigger] row@[x]) is None,
{
    let mut row: Vec<Option<T>> = Vec::new();
    let mut x: u32 = 0;
    while x < image_width
        invariant
            x <= image_width,
            row@.len() == x,
            forall|i: int| 0 <= i < row@.len() ==> (#[trigger] row@[i]) is None,
        decreases image_width - x,
    {
        row.push(None);
        x = x + 1;
    }
    row
}

/// Whether each cell holds the colour of the one result among the first
/// `count` that is for its pixel, and holds nothing where there is none.
spec fn cells_hold<T>(
    cells: Seq<Vec<Option<T>>>,
    results: Seq<PixelResult<T>>,
    count: int,
    image_width: nat,
    image_height: nat,
) -> bool {
    &&& cells.len() == image_height
    &&& forall|row: int| 0 <= row < image_height ==> (#[trigger] cells[row])@.len() == image_width
    &&& forall|row: int, x: int|
        0 <= row < image_height && 0 <= x < image_width ==> match #[trigger] cells[row]@[x] {
            Some(color) => exists|j: int|
                0 <= j < count && is_for(
                    #[trigger] results[j],
                    x,
                    flipped(image_height as int, row),
                ) && results[j].color == color,
            None => forall|j: int|
                0 <= j < count ==> !is_for(
                    #[trigger] results[j],
                    x,
                    flipped(image_height as int, row),
                ),
        }
}

/// Puts results together into an image, whatever order they come in.
///
/// Each result is written to the place that its column and row give it,
/// the bottom row of the frame last: row `y` of the frame becomes row
/// `image_height - 1 - y` of the image. See [`collected`] for the errors.
pub fn collect<T: Copy>(image_width: u32, image_height: u32, results: &Vec<PixelResult<T>>) -> (out:
    Result<Vec<Vec<T>>, RenderError>)
    ensures
        match collected(results@, image_width as nat, image_height as nat) {
            Ok(image) => out matches Ok(rows) && rows_of(rows) == image,
            Err(e) => out matches Err(f) && f == e,
        },
{
    if image_width == 0 || image_height == 0 {
        return Err(RenderError::Config(ConfigError::ZeroDimensions));
    }
    let ghost w = image_width as nat;
    let ghost h = image_height as nat;
    let mut k: usize = 0;
    while k < results.len()
        invariant
            k <= results.len(),
            w == image_width,
            h == image_height,
            w > 0,
            h > 0,
            forall|j: int|
                0 <= j < k ==> (#[trigger] results@[j]).x < image_width && results@[j].y
                    < image_height,
        decreases results.len() - k,
    {
        if results[k].x >= image_width || results[k].y >= image_height {
            proof {
                assert(!(results@[k as int].x < w && results@[k as int].y < h));
            }
            return Err(RenderError::OutOfFrame);
        }
        k = k + 1;
    }
    assert(all_in_frame(results@, w, h));
    let mut cells: Vec<Vec<Option<T>>> = Vec::new();
    let mut row: u32 = 0;
    while row < image_height
        invariant
            row <= image_height,
            cells@.len() == row,
            forall|r: int| 0 <= r < row ==> (#[trigger] cells@[r])@.len() == image_width,
            forall|r: int, x: int|
                0 <= r < row && 0 <= x < image_width ==> (#[trigger] cells@[r]@[x]) is None,
        decreases image_height - row,
    {
        cells.push(empty_row(image_width));
        row = row + 1;
    }
    assert(cells_hold(cells@, results@, 0, w, h));
    k = 0;
    while k < results.len()
        invariant
            k <= results.len(),
            w == image_width,
            h == image_height,
            w > 0,
            h > 0,
            all_in_frame(results@, w, h),
            cells_hold(cells@, results@, k as int, w, h),
            forall|i: int, j: int|
                #![trigger results@[i], results@[j]]
                0 <= i < j < k ==> !is_for(results@[j], results@[i].x as int, results@[i].y as int),
        decreases results.len() - k,
    {
        let result = results[k];
        let row = image_row(image_height, result.y);
        let ghost before = cells@;
        if cells[row as usize][result.x as usize].is_some() {
            proof {
                let j = choose|j: int|
                    0 <= j < k && is_for(
                        #[trigger] results@[j],
                        result.x as int,
                        flipped(h as int, row as int),
                    );
                assert(is_for(results@[k as int], results@[j].x as int, results@[j].y as int));
            }
            return Err(RenderError::Duplicate);
        }
        cells[row as usize].set(result.x as usize, Some(result.color));
        proof {
            assert forall|r: int, x: int|
                0 <= r < h && 0 <= x < w implies match #[trigger] cells@[r]@[x] {
                Some(color) => exists|j: int|
                    0 <= j < k + 1 && is_for(#[trigger] results@[j], x, flipped(h as int, r))
                        && results@[j].color == color,
                None => forall|j: int|
                    0 <= j < k + 1 ==> !is_for(#[trigger] results@[j], x, flipped(h as int, r)),
            } by {
                if r == row && x == result.x {
                    assert(is_for(results@[k as int], x, flipped(h as int, r)));
                } else {
                    assert(cells@[r]@[x] == before[r]@[x]);
                    match before[r]@[x] {
                        Some(color) => {
                            let j = choose|j: int|
                                0 <= j < k && is_for(
                                    #[trigger] results@[j],
                                    x,
                                    flipped(h as int, r),
                                ) && results@[j].color == color;
                            assert(0 <= j < k + 1);
                        },
                        None => {},
                    }
                }
            }
            assert forall|i: int, j: int|
                #![trigger results@[i], results@[j]]
                0 <= i < j < k + 1 implies !is_for(
                results@[j],
                results@[i].x as int,
                results@[i].y as int,
            ) by {
                if j == k {
                    assert(before[row as int]@[result.x as int] is None);
                }
            }
        }
        k = k + 1;
    }
    assert(all_distinct(results@));
    let mut image: Vec<Vec<T>> = Vec::new();
    let mut row: u32 = 0;
    while row < image_height
        invariant
            row <= image_height,
            w == image_width,
            h == image_height,
            w > 0,
            h > 0,
            all_in_frame(results@, w, h),
            all_distinct(results@),
            cells_hold(cells@, results@, results@.len() as int, w, h),
            image@.len() == row,
            forall|r: int| 0 <= r < row ==> (#[trigger] image@[r])@.len() == image_width,
            forall|r: int, x: int|
                0 <= r < row && 0 <= x < w ==> #[trigger] has_result(
                    results@,
                    x,
                    flipped(h as int, r),
                ),
            forall|r: int, x: int|
                0 <= r < row && 0 <= x < w ==> (#[trigger] image@[r]@[x]) == color_at(
                    results@,
                    x,
                    flipped(h as int, r),
                ),
        decreases image_height - row,
    {
        let mut line: Vec<T> = Vec::new();
        let mut x: u32 = 0;
        while x < image_width
            invariant
                x <= image_width,
                row < image_height,
                w == image_width,
                h == image_height,
                w > 0,
                h > 0,
                all_in_frame(results@, w, h),
                all_distinct(results@),
                cells_hold(cells@, results@, results@.len() as int, w, h),
                line@.len() == x,
                forall|i: int|
                    0 <= i < x ==> #[trigger] has_result(
                        results@,
                        i,
                        flipped(h as int, row as int),
                    ),
                forall|i: int|
                    0 <= i < x ==> (#[trigger] line@[i]) == color_at(
                        results@,
                        i,
                        flipped(h as int, row as int),
                    ),
            decreases image_width - x,
        {
            match cells[row as usize][x as usize] {
                Some(color) => {
                    proof {
                        lemma_the_one_result(
                            results@,
                            x as int,
                            flipped(h as int, row as int),
                            color,
                        );
                    }
                    line.push(color);
                    proof {
                        assert(line@[x as int] == color);
                        assert(has_result(results@, x as int, flipped(h as int, row as int)));
                        assert(color_at(results@, x as int, flipped(h as int, row as int))
                            == color);
                    }
                },
                None => {
                    proof {
                        assert(cells@[row as int]@[x as int] is None);
                        assert(!has_result(results@, x as int, flipped(h as int, row as int)));
                    }
                    return Err(RenderError::Missing);
                },
            }
            x = x + 1;
        }
        image.push(line);
        row = row + 1;
    }
    proof {
        assert forall|x: int, y: int| 0 <= x < w && 0 <= y < h implies #[trigger] has_result(
            results@,
            x,
            y,
        ) by {
            assert(has_result(results@, x, flipped(h as int, h - 1 - y)));
        }
        assert(rows_of(image) =~~= image_of(results@, w, h));
    }
    Ok(image)
}

/// Where no two results are for the same pixel, the colour of a result for
/// a pixel is the colour that the results give for that pixel.
proof fn lemma_the_one_result<T>(results: Seq<PixelResult<T>>, x: int, y: int, color: T)
    requires
        all_distinct(results),
        exists|j: int|
            0 <= j < results.len() && is_for(#[trigger] results[j], x, y) && results[j].color
                == color,
    ensures
        has_result(results, x, y),
        color_at(results, x, y) == color,
{
    let j = choose|j: int|
        0 <= j < results.len() && is_for(#[trigger] results[j], x, y) && results[j].color == color;
    let k = choose|k: int| 0 <= k < results.len() && is_for(#[trigger] results[k], x, y);
    if j < k {
        assert(!is_for(results[k], results[j].x as int, results[j].y as int));
    } else if k < j {
        assert(!is_for(results[j], results[k].x as int, results[k].y as int));
    }
}

/// What holds of results in one order holds of them in any other: that all
/// lie in the frame, that no two are for the same pixel, that every pixel
/// has one, and which colour each pixel has.
proof fn lemma_order_is_immaterial<T>(
    a: Seq<PixelResult<T>>,
    b: Seq<PixelResult<T>>,
    image_width: nat,
    image_height: nat,
)
    requires
        a.to_multiset() == b.to_multiset(),
    ensures
        all_in_frame(a, image_width, image_height) ==> all_in_frame(b, image_width, image_height),
        all_distinct(a) ==> all_distinct(b),
        all_present(a, image_width, image_height) ==> all_present(b, image_width, image_height),
        all_distinct(a) ==> forall|x: int, y: int|
            has_result(a, x, y) ==> #[trigger] color_at(b, x, y) == color_at(a, x, y),
{
    assert forall|i: int| 0 <= i < a.len() implies b.contains(#[trigger] a[i]) by {
        vstd::seq_lib::to_multiset_contains(a, a[i]);
        vstd::seq_lib::to_multiset_contains(b, a[i]);
        assert(a.contains(a[i]));
    }
    assert forall|i: int| 0 <= i < b.len() implies a.contains(#[trigger] b[i]) by {
        vstd::seq_lib::to_multiset_contains(a, b[i]);
        vstd::seq_lib::to_multiset_contains(b, b[i]);
        assert(b.contains(b[i]));
    }
    if all_in_frame(a, image_width, image_height) {
        assert forall|k: int| 0 <= k < b.len() implies (#[trigger] b[k]).x < image_width && b[k].y
            < image_height by {
            let i = choose|i: int| 0 <= i < a.len() && a[i] == b[k];
            assert(a[i].x < image_width);
        }
    }
    if all_distinct(a) {
        assert(a.no_duplicates()) by {
            assert forall|i: int, j: int|
                0 <= i < a.len() && 0 <= j < a.len() && i != j implies a[i] != a[j] by {
                if i < j {
                    assert(!is_for(a[j], a[i].x as int, a[i].y as int));
                } else {
                    assert(!is_for(a[i], a[j].x as int, a[j].y as int));
                }
            }
        }
        a.lemma_multiset_has_no_duplicates();
        b.lemma_multiset_has_no_duplicates_conv();
        assert forall|j: int, k: int|
            #![trigger b[j], b[k]]
            0 <= j < k < b.len() implies !is_for(b[k], b[j].x as int, b[j].y as int) by {
            let ja = choose|i: int| 0 <= i < a.len() && a[i] == b[j];
            let ka = choose|i: int| 0 <= i < a.len() && a[i] == b[k];
            assert(b[j] != b[k]);
            if ja < ka {
                assert(!is_for(a[ka], a[ja].x as int, a[ja].y as int));
            } else {
                assert(!is_for(a[ja], a[ka].x as int, a[ka].y as int));
            }
        }
        assert forall|x: int, y: int| has_result(a, x, y) implies #[trigger] color_at(b, x, y)
            == color_at(a, x, y) by {
            let i = choose|i: int| 0 <= i < a.len() && is_for(#[trigger] a[i], x, y);
            let k = choose|k: int| 0 <= k < b.len() && b[k] == a[i];
            assert(is_for(b[k], x, y));
            lemma_the_one_result(b, x, y, a[i].color);
        }
    }
    if all_present(a, image_width, image_height) {
        assert forall|x: int, y: int|
            0 <= x < image_width && 0 <= y < image_height implies #[trigger] has_result(
            b,
            x,
            y,
        ) by {
            assert(has_result(a, x, y));
            let i = choose|i: int| 0 <= i < a.len() && is_for(#[trigger] a[i], x, y);
            let k = choose|k: int| 0 <= k < b.len() && b[k] == a[i];
            assert(is_for(b[k], x, y));
        }
    }
}

/// The image does not depend on the order in which the results arrive:
/// two sequences that hold the same results, each as often as the other,
/// are put together to the same image, or fail for the same reason.
pub proof fn lemma_collect_ignores_order<T>(
    a: Seq<PixelResult<T>>,
    b: Seq<PixelResult<T>>,
    image_width: nat,
    image_height: nat,
)
    requires
        a.to_multiset() == b.to_multiset(),
    ensures
        collected(a, image_width, image_height) == collected(b, image_width, image_height),
{
    lemma_order_is_immaterial(a, b, image_width, image_height);
    lemma_order_is_immaterial(b, a, image_width, image_height);
    if collected(a, image_width, image_height) is Ok {
        let image_a = image_of(a, image_width, image_height);
        let image_b = image_of(b, image_width, image_height);
        assert forall|row: int| 0 <= row < image_height implies #[trigger] image_a[row]
            == image_b[row] by {
            assert forall|x: int| 0 <= x < image_width implies #[trigger] image_a[row][x]
                == image_b[row][x] by {
                assert(has_result(a, x, flipped(image_height as int, row)));
            }
            assert(image_a[row] =~= image_b[row]);
        }
        assert(image_a =~= image_b);
    }
}

/// Whether `sum` may be the sum of `count` samples of the pixel of `job`:
/// with no sample it is `black`, and with one more it is what `plus` makes of
/// the sum so far and of a colour that `sample` gives for the pixel.
pub open spec fn sums_up<C, S, A>(
    sample: S,
    plus: A,
    black: C,
    job: Job,
    count: nat,
    sum: C,
) -> bool where S: Fn(u32, u32) -> C, A: Fn(C, C) -> C
    decreases count,
{
    if count == 0 {
        sum == black
    } else {
        exists|so_far: C, drawn: C|
            {
                &&& sums_up(sample, plus, black, job, (count - 1) as nat, so_far)
                &&& #[trigger] call_ensures(sample, (job.x, job.y), drawn)
                &&& #[trigger] call_ensures(plus, (so_far, drawn), sum)
            }
    }
}

/// Computes the sum of the samples of one pixel: `sample` is asked for
/// `samples_per_pixel` colours of the pixel, and each is added to the sum
/// as it comes.
pub fn sample_pixel<C, S, A>(
    job: Job,
    samples_per_pixel: u32,
    sample: &S,
    plus: &A,
    black: C,
) -> (sum: C) where C: Copy, S: Fn(u32, u32) -> C, A: Fn(C, C) -> C
    requires
        call_requires(*sample, (job.x, job.y)),
        forall|a: C, b: C| call_requires(*plus, (a, b)),
    ensures
        sums_up(*sample, *plus, black, job, samples_per_pixel as nat, sum),
{
    let mut sum = black;
    let mut taken: u32 = 0;
    while taken < samples_per_pixel
        invariant
            taken <= samples_per_pixel,
            call_requires(*sample, (job.x, job.y)),
            forall|a: C, b: C| call_requires(*plus, (a, b)),
            sums_up(*sample, *plus, black, job, taken as nat, sum),
        decreases samples_per_pixel - taken,
    {
        let so_far = sum;
        let drawn = sample(job.x, job.y);
        sum = plus(so_far, drawn);
        taken = taken + 1;
        proof {
            assert(sums_up(*sample, *plus, black, job, (taken - 1) as nat, so_far));
            assert(call_ensures(*sample, (job.x, job.y), drawn));
            assert(call_ensures(*plus, (so_far, drawn), sum));
        }
    }
    sum
}

/// Whether `oracle` says what `pixel` answers: whatever `pixel` may return
/// for a column and a row is what `oracle` gives for them.
pub open spec fn pixels_are<T, F: Fn(u32, u32) -> T>(
    pixel: F,
    oracle: spec_fn(u32, u32) -> T,
) -> bool {
    forall|x: u32, y: u32, out: T| call_ensures(pixel, (x, y), out) ==> out == oracle(x, y)
}

/// The image of a frame whose pixels are given by a function of column and
/// row: its rows from the top, each from the left.
pub open spec fn rendered<T>(
    oracle: spec_fn(u32, u32) -> T,
    image_width: nat,
    image_height: nat,
) -> Seq<Seq<T>> {
    Seq::new(
        image_height,
        |row: int|
            Seq::new(
                image_width,
                |x: int| oracle(x as u32, flipped(image_height as int, row) as u32),
            ),
    )
}

/// Renders a frame with one worker: computes every pixel in turn, from
/// the top row of the image down and each row from the left, and puts the
/// image together.
pub fn render<T, F>(image_width: u32, image_height: u32, pixel: &F) -> (out: Result<
    Vec<Vec<T>>,
    ConfigError,
>) where F: Fn(u32, u32) -> T
    requires
        forall|x: u32, y: u32|
            x < image_width && y < image_height ==> call_requires(*pixel, (x, y)),
    ensures
        out is Err <==> image_width == 0 || image_height == 0,
        out matches Err(e) ==> e == ConfigError::ZeroDimensions,
        out matches Ok(image) ==> {
            &&& image@.len() == image_height
            &&& forall|row: int|
                0 <= row < image_height ==> (#[trigger] image@[row])@.len() == image_width
            &&& forall|row: int, x: int|
                0 <= row < image_height && 0 <= x < image_width ==> call_ensures(
                    *pixel,
                    (x as u32, flipped(image_height as int, row) as u32),
                    #[trigger] image@[row]@[x],
                )
            &&& forall|oracle: spec_fn(u32, u32) -> T|
                pixels_are(*pixel, oracle) ==> rows_of(image) == #[trigger] rendered(
                    oracle,
                    image_width as nat,
                    image_height as nat,
                )
        },
{
    if image_width == 0 || image_height == 0 {
        return Err(ConfigError::ZeroDimensions);
    }
    let ghost w = image_width as nat;
    let ghost h = image_height as nat;
    let mut image: Vec<Vec<T>> = Vec::new();
    let mut row: u32 = 0;
    while row < image_height
        invariant
            row <= image_height,
            w == image_width,
            h == image_height,
            forall|x: u32, y: u32|
                x < image_width && y < image_height ==> call_requires(*pixel, (x, y)),
            image@.len() == row,
            forall|r: int| 0 <= r < row ==> (#[trigger] image@[r])@.len() == image_width,
            forall|r: int, x: int|
                0 <= r < row && 0 <= x < w ==> call_ensures(
                    *pixel,
                    (x as u32, flipped(h as int, r) as u32),
                    #[trigger] image@[r]@[x],
                ),
        decreases image_height - row,
    {
        let y = image_row(image_height, row);
        let mut line: Vec<T> = Vec::new();
        let mut x: u32 = 0;
        while x < image_width
            invariant
                x <= image_width,
                y < image_height,
                y == flipped(h as int, row as int),
                w == image_width,
                h == image_height,
                forall|x: u32, y: u32|
                    x < image_width && y < image_height ==> call_requires(*pixel, (x, y)),
                line@.len() == x,
                forall|i: int|
                    0 <= i < x ==> call_ensures(*pixel, (i as u32, y), #[trigger] line@[i]),
            decreases image_width - x,
        {
            let color = pixel(x, y);
            line.push(color);
            x = x + 1;
        }
        image.push(line);
        row = row + 1;
    }
    proof {
        assert forall|oracle: spec_fn(u32, u32) -> T| pixels_are(*pixel, oracle) implies rows_of(
            image,
        ) == #[trigger] rendered(oracle, w, h) by {
            let made = rendered(oracle, w, h);
            assert forall|r: int| 0 <= r < h implies #[trigger] rows_of(image)[r] == made[r] by {
                assert forall|x: int| 0 <= x < w implies #[trigger] rows_of(image)[r][x]
                    == made[r][x] by {
                    assert(call_ensures(
                        *pixel,
                        (x as u32, flipped(h as int, r) as u32),
                        image@[r]@[x],
                    ));
                }
                assert(rows_of(image)[r] =~= made[r]);
            }
            assert(rows_of(image) =~= made);
        }
    }
    Ok(image)
}

/// However many workers compute the pixels and in whatever order their
/// results arrive, the image is the one that a single worker renders:
/// results that lie in the frame, one for each pixel, each with the colour
/// that the pixel has, are put together to that image.
pub proof fn lemma_any_number_of_workers<T>(
    results: Seq<PixelResult<T>>,
    oracle: spec_fn(u32, u32) -> T,
    image_width: nat,
    image_height: nat,
)
    requires
        image_width > 0,
        image_height > 0,
        all_in_frame(results, image_width, image_height),
        all_distinct(results),
        all_present(results, image_width, image_height),
        forall|k: int|
            0 <= k < results.len() ==> (#[trigger] results[k]).color == oracle(
                results[k].x,
                results[k].y,
            ),
    ensures
        collected(results, image_width, image_height) == Ok::<Seq<Seq<T>>, RenderError>(
            rendered(oracle, image_width, image_height),
        ),
{
    let put = image_of(results, image_width, image_height);
    let made = rendered(oracle, image_width, image_height);
    assert forall|row: int| 0 <= row < image_height implies #[trigger] put[row] == made[row] by {
        assert forall|x: int| 0 <= x < image_width implies #[trigger] put[row][x]
            == made[row][x] by {
            let y = flipped(image_height as int, row);
            assert(has_result(results, x, y));
            let k = choose|k: int| 0 <= k < results.len() && is_for(#[trigger] results[k], x, y);
            assert(results[k].color == oracle(results[k].x, results[k].y));
        }
        assert(put[row] =~= made[row]);
    }
    assert(put =~= made);
}

} // verus!
