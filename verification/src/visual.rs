//! Stereo frames from a directory: `left_0000.raw`, `right_0000.raw` and so on.

use crate::text;
use crate::text::{decimal_text, ends_with, pad, starts_with};
use vstd::prelude::*;

verus! {

/// The replay of a directory of frames.
#[derive(Debug, Clone)]
pub struct ReplayVisualSource {
    dir: String,
    index: u64,
    width: u32,
    height: u32,
}

/// Which image of a pair.
#[derive(Debug, Clone, Copy, PartialEq, Eq, Structural)]
pub enum Side {
    Left,
    Right,
}

/// The name of a side.
pub open spec fn side_name(side: Side) -> Seq<char> {
    match side {
        Side::Left => "left"@,
        Side::Right => "right"@,
    }
}

/// The name of the file of the frame `index`.
pub open spec fn file_name_of(side: Side, index: nat) -> Seq<char> {
    side_name(side) + "_"@ + text::padded(text::digits_of(index), '0', 4) + ".raw"@
}

/// Bytes or a complaint, as the library takes them.
pub open spec fn bytes_of(r: Result<Vec<u8>, String>) -> Result<Seq<u8>, Seq<char>> {
    match r {
        Ok(data) => Ok(data@),
        Err(e) => Err(e@),
    }
}

/// The image in a file that was read, or the complaint: the file cannot be read, or
/// it does not hold `size` bytes.
pub open spec fn loaded(
    path: Seq<char>,
    read: Result<Seq<u8>, Seq<char>>,
    size: nat,
) -> Result<Seq<u8>, Seq<char>> {
    match read {
        Err(e) => Err("cannot read "@ + path + ": "@ + e),
        Ok(data) => if data.len() == size {
            Ok(data)
        } else {
            Err(
                path + ": expected "@ + text::digits_of(size) + " bytes, got "@ + text::digits_of(
                    data.len() as nat,
                ),
            )
        },
    }
}

/// The next pair, given its images as they were loaded. A left image that is
/// missing ends the replay, but for the first one.
pub open spec fn next_pair(
    index: nat,
    left: Result<Seq<u8>, Seq<char>>,
    right: Result<Seq<u8>, Seq<char>>,
) -> Result<(Seq<u8>, Seq<u8>), Seq<char>> {
    match (left, right) {
        (Err(e), _) => if index == 0 {
            Err(e)
        } else {
            Err("end of visual replay"@)
        },
        (Ok(_), Err(e)) => Err(e),
        (Ok(l), Ok(r)) => Ok((l, r)),
    }
}

/// The name of the file of the frame `index`, where it is recorded and replayed from.
pub fn frame_file_name(side: Side, index: u64) -> (r: String)
    ensures
        r@ == file_name_of(side, index as nat),
{
    let mut m = match side {
        Side::Left => "left".to_owned(),
        Side::Right => "right".to_owned(),
    };
    m.append("_");
    m.append(pad(decimal_text(index).as_str(), '0', 4).as_str());
    m.append(".raw");
    m
}

impl ReplayVisualSource {
    /// The directory.
    pub closed spec fn directory(&self) -> Seq<char> {
        self.dir@
    }

    /// The number of the next frame.
    pub closed spec fn next_index(&self) -> nat {
        self.index as nat
    }

    /// The width of the frames.
    pub closed spec fn frame_width(&self) -> int {
        self.width as int
    }

    /// The height of the frames.
    pub closed spec fn frame_height(&self) -> int {
        self.height as int
    }

    /// The number of bytes of an image.
    pub open spec fn image_size(&self) -> int {
        self.frame_width() * self.frame_height()
    }

    /// The replay of the directory `dir`, which is one if `is_dir` says so.
    pub fn open(dir: &str, is_dir: bool, width: u32, height: u32) -> (r: Result<
        ReplayVisualSource,
        String,
    >)
        ensures
            match r {
                Ok(s) => {
                    &&& is_dir
                    &&& s.directory() == dir@
                    &&& s.next_index() == 0
                    &&& s.frame_width() == width
                    &&& s.frame_height() == height
                },
                Err(m) => !is_dir && m@ == "replay-visual path is not a directory: "@ + dir@,
            },
    {
        if !is_dir {
            let mut m = "replay-visual path is not a directory: ".to_owned();
            m.append(dir);
            return Err(m);
        }
        Ok(ReplayVisualSource { dir: dir.to_owned(), index: 0, width, height })
    }

    /// The width and height of every frame.
    pub fn size(&self) -> (r: (u32, u32))
        ensures
            r.0 == self.frame_width(),
            r.1 == self.frame_height(),
    {
        (self.width, self.height)
    }

    /// The name of the file of the next frame.
    pub fn file_name(&self, side: Side) -> (r: String)
        ensures
            r@ == file_name_of(side, self.next_index()),
    {
        frame_file_name(side, self.index)
    }

    /// The image in the file at `path`, from what reading it gave.
    pub fn load(&self, path: &str, read: Result<Vec<u8>, String>) -> (r: Result<Vec<u8>, String>)
        requires
            self.image_size() <= u32::MAX,
        ensures
            match (r, loaded(path@, bytes_of(read), self.image_size() as nat)) {
                (Ok(a), Ok(b)) => a@ == b,
                (Err(m), Err(n)) => m@ == n,
                _ => false,
            },
    {
        match read {
            Err(e) => {
                let mut m = "cannot read ".to_owned();
                m.append(path);
                m.append(": ");
                m.append(e.as_str());
                Err(m)
            },
            Ok(data) => {
                assert(0 <= self.width * self.height) by (nonlinear_arith)
                    requires
                        0 <= self.width,
                        0 <= self.height,
                ;
                let size: u32 = self.width * self.height;
                if data.len() as u64 == size as u64 {
                    Ok(data)
                } else {
                    let mut m = path.to_owned();
                    m.append(": expected ");
                    m.append(decimal_text(size as u64).as_str());
                    m.append(" bytes, got ");
                    m.append(decimal_text(data.len() as u64).as_str());
                    Err(m)
                }
            },
        }
    }

    /// The next pair, given its images as they were loaded. Moves on to the next
    /// frame when both are there.
    pub fn next_frame(
        &mut self,
        left: Result<Vec<u8>, String>,
        right: Result<Vec<u8>, String>,
    ) -> (r: Result<(Vec<u8>, Vec<u8>), String>)
        requires
            old(self).next_index() < u64::MAX,
        ensures
            final(self).directory() == old(self).directory(),
            final(self).frame_width() == old(self).frame_width(),
            final(self).frame_height() == old(self).frame_height(),
            match (r, next_pair(old(self).next_index(), bytes_of(left), bytes_of(right))) {
                (Ok((a, b)), Ok((x, y))) => {
                    &&& a@ == x
                    &&& b@ == y
                    &&& final(self).next_index() == old(self).next_index() + 1
                },
                (Err(m), Err(n)) => m@ == n && final(self).next_index() == old(self).next_index(),
                _ => false,
            },
    {
        let l = match left {
            Ok(l) => l,
            Err(e) => {
                if self.index == 0 {
                    return Err(e);
                }
                return Err("end of visual replay".to_owned());
            },
        };
        let r = match right {
            Ok(r) => r,
            Err(e) => {
                return Err(e);
            },
        };
        self.index = self.index + 1;
        Ok((l, r))
    }

    /// The name of the source.
    pub fn name(&self) -> (r: String)
        ensures
            r@ == "replay-visual("@ + self.directory() + ")"@,
    {
        let mut m = "replay-visual(".to_owned();
        m.append(self.dir.as_str());
        m.append(")");
        m
    }
}

/// The name of a left image.
pub open spec fn is_left_image(name: Seq<char>) -> bool {
    text::begins_with(name, "left_"@) && text::finishes_with(name, ".raw"@)
}

/// The number of left images among the first `n` names.
pub open spec fn left_images(names: Seq<String>, n: int) -> int
    decreases n,
{
    if n <= 0 {
        0
    } else {
        left_images(names, n - 1) + if is_left_image(names[n - 1]@) {
            1int
        } else {
            0
        }
    }
}

/// The number of frames in a directory with files of these names.
pub fn replay_visual_frames(names: &Vec<String>) -> (r: usize)
    ensures
        r == left_images(names@, names.len() as int),
{
    let mut n: usize = 0;
    let mut i: usize = 0;
    while i < names.len()
        invariant
            i <= names.len(),
            n <= i,
            n == left_images(names@, i as int),
        decreases names.len() - i,
    {
        let name = names[i].as_str();
        if starts_with(name, "left_") && ends_with(name, ".raw") {
            n += 1;
        }
        i += 1;
    }
    n
}

/// The left image of every frame counts as one.
pub proof fn law_left_files_count(index: nat)
    ensures
        is_left_image(file_name_of(Side::Left, index)),
{
    reveal_strlit("left");
    reveal_strlit("_");
    reveal_strlit("left_");
    reveal_strlit(".raw");
    let middle = text::padded(text::digits_of(index), '0', 4);
    let name = file_name_of(Side::Left, index);
    assert(name.subrange(0, 5) =~= "left_"@);
    assert(name.subrange(name.len() - 4, name.len() as int) =~= ".raw"@);
}

/// What reading the file `name` gives, in a directory with these files; `reason` is why
/// a file that is not there cannot be read.
pub open spec fn read_file(
    files: Map<Seq<char>, Seq<u8>>,
    name: Seq<char>,
    reason: Seq<char>,
) -> Result<Seq<u8>, Seq<char>> {
    if files.contains_key(name) {
        Ok(files[name])
    } else {
        Err(reason)
    }
}

/// The pair of the frame `index`, as it is loaded from the files of a directory, at these
/// paths, and handed out.
pub open spec fn frame_in(
    files: Map<Seq<char>, Seq<u8>>,
    left_path: Seq<char>,
    right_path: Seq<char>,
    reason: Seq<char>,
    index: nat,
    size: nat,
) -> Result<(Seq<u8>, Seq<u8>), Seq<char>> {
    let left = file_name_of(Side::Left, index);
    let right = file_name_of(Side::Right, index);
    next_pair(
        index,
        loaded(left_path, read_file(files, left, reason), size),
        loaded(right_path, read_file(files, right, reason), size),
    )
}

/// A file is there and holds an image of `size` bytes.
pub open spec fn holds_image(files: Map<Seq<char>, Seq<u8>>, name: Seq<char>, size: nat) -> bool {
    files.contains_key(name) && files[name].len() == size
}

/// A frame is handed out just when both of its files are there and hold an image; then
/// it is made of their bytes. Behind the first frame, a left image that is not there ends
/// the replay.
pub proof fn law_frame_is_its_files(
    files: Map<Seq<char>, Seq<u8>>,
    left_path: Seq<char>,
    right_path: Seq<char>,
    reason: Seq<char>,
    index: nat,
    size: nat,
)
    ensures
        ({
            let left = file_name_of(Side::Left, index);
            let right = file_name_of(Side::Right, index);
            let r = frame_in(files, left_path, right_path, reason, index, size);
            &&& r is Ok <==> holds_image(files, left, size) && holds_image(files, right, size)
            &&& r matches Ok(pair) ==> pair == (files[left], files[right])
            &&& !holds_image(files, left, size) && index > 0 ==> r == Err::<
                (Seq<u8>, Seq<u8>),
                _,
            >("end of visual replay"@)
        }),
{
}

/// Every image of a recording has a file of its own.
pub proof fn law_file_names_differ(side1: Side, index1: nat, side2: Side, index2: nat)
    requires
        side1 != side2 || index1 != index2,
    ensures
        file_name_of(side1, index1) != file_name_of(side2, index2),
{
    reveal_strlit("left");
    reveal_strlit("right");
    reveal_strlit("_");
    reveal_strlit(".raw");
    let (a, b) = (file_name_of(side1, index1), file_name_of(side2, index2));
    if side1 != side2 {
        assert(a[0] != b[0]);
    } else if a == b {
        let n = side_name(side1).len() as int + 1;
        let pa = text::padded(text::digits_of(index1), '0', 4);
        let pb = text::padded(text::digits_of(index2), '0', 4);
        assert(pa =~= a.subrange(n, a.len() - 4));
        assert(pb =~= b.subrange(n, b.len() - 4));
        text::law_padding_keeps_number(text::digits_of(index1), 4);
        text::law_padding_keeps_number(text::digits_of(index2), 4);
        text::law_digits_stand_for_number(index1);
        text::law_digits_stand_for_number(index2);
    }
}

/// The first of the names from the `i`th on that is `name`.
pub open spec fn first_named(names: Seq<String>, name: Seq<char>, i: int) -> Option<int>
    decreases names.len() - i,
{
    if i >= names.len() {
        None
    } else if names[i]@ == name {
        Some(i)
    } else {
        first_named(names, name, i + 1)
    }
}

fn find(names: &Vec<String>, name: &str) -> (r: Option<usize>)
    ensures
        match (r, first_named(names@, name@, 0)) {
            (Some(a), Some(b)) => a == b && a < names.len(),
            (None, None) => true,
            _ => false,
        },
{
    let mut i: usize = 0;
    while i < names.len()
        invariant
            i <= names.len(),
            first_named(names@, name@, 0) == first_named(names@, name@, i as int),
        decreases names.len() - i,
    {
        if text::same(names[i].as_str(), name) {
            return Some(i);
        }
        i += 1;
    }
    None
}

/// The left and right tracking cameras among the cameras with these names; `None`
/// unless both are there.
pub fn slam_cameras(names: &Vec<String>) -> (r: Option<(usize, usize)>)
    ensures
        match (
            r,
            first_named(names@, "Nreal Light SLAM left"@, 0),
            first_named(names@, "Nreal Light SLAM right"@, 0),
        ) {
            (Some((a, b)), Some(x), Some(y)) => a == x && b == y && a < names.len() && b
                < names.len(),
            (None, Some(_), Some(_)) => false,
            (None, _, _) => true,
            _ => false,
        },
{
    match (find(names, "Nreal Light SLAM left"), find(names, "Nreal Light SLAM right")) {
        (Some(left), Some(right)) => Some((left, right)),
        _ => None,
    }
}

/// The file of a frame is named by its side and its number, in four digits or more.
pub proof fn law_file_is_named_by_number(side: Side, index: u64, name: String, digits: Seq<char>)
    requires
        call_ensures(frame_file_name, (side, index), name),
        digits == name@.subrange(
            if side is Left {
                5
            } else {
                6
            },
            name@.len() - 4,
        ),
    ensures
        side is Left ==> name@.subrange(0, 5) == "left_"@,
        side is Right ==> name@.subrange(0, 6) == "right_"@,
        name@.subrange(name@.len() - 4, name@.len() as int) == ".raw"@,
        digits.len() >= 4,
        forall|i: int| 0 <= i < digits.len() ==> '0' <= #[trigger] digits[i] <= '9',
        text::decimal(digits) == index,
        index < 10000 ==> digits.len() == 4,
{
    reveal_strlit("left");
    reveal_strlit("right");
    reveal_strlit("left_");
    reveal_strlit("right_");
    reveal_strlit("_");
    reveal_strlit(".raw");
    let own = text::digits_of(index as nat);
    let middle = text::padded(own, '0', 4);
    assert(digits =~= middle);
    text::law_digits_stand_for_number(index as nat);
    text::law_padding_keeps_number(own, 4);
    assert(name@.subrange(0, 5) =~= if side is Left {
        "left_"@
    } else {
        name@.subrange(0, 5)
    });
    assert(name@.subrange(0, 6) =~= if side is Right {
        "right_"@
    } else {
        name@.subrange(0, 6)
    });
    assert(name@.subrange(name@.len() - 4, name@.len() as int) =~= ".raw"@);
    assert forall|i: int| 0 <= i < digits.len() implies '0' <= #[trigger] digits[i] <= '9' by {
        let k = digits.len() - own.len();
        if i >= k {
            assert(digits[i] == own[i - k]);
            assert(text::is_digit(own[i - k]));
        }
    }
    if index < 10000 {
        reveal_with_fuel(text::digits_of, 5);
    }
}

/// A directory is replayed from its first frame on, and named after itself; what is no
/// directory is refused.
pub proof fn law_replay_needs_directory(
    dir: &str,
    is_dir: bool,
    width: u32,
    height: u32,
    r: Result<ReplayVisualSource, String>,
)
    requires
        call_ensures(ReplayVisualSource::open, (dir, is_dir, width, height), r),
    ensures
        is_dir <==> r is Ok,
        r matches Err(m) ==> m@ == "replay-visual path is not a directory: "@ + dir@,
        r matches Ok(s) ==> s.directory() == dir@ && s.next_index() == 0 && s.frame_width() == width
            && s.frame_height() == height,
{
}

/// A replay names itself, its size and its next files.
pub proof fn law_replay_names_its_files(
    s: ReplayVisualSource,
    size: (u32, u32),
    name: String,
    side: Side,
    index: u64,
    file: String,
    other: String,
)
    requires
        call_ensures(ReplayVisualSource::size, (&s,), size),
        call_ensures(ReplayVisualSource::name, (&s,), name),
        index == s.next_index(),
        call_ensures(ReplayVisualSource::file_name, (&s, side), file),
        call_ensures(frame_file_name, (side, index), other),
    ensures
        size.0 == s.frame_width() && size.1 == s.frame_height(),
        name@ == "replay-visual("@ + s.directory() + ")"@,
        file@ == other@,
{
}

/// A file is an image where it could be read and holds one byte for each pixel; else the
/// complaint says what was wrong with it.
pub proof fn law_image_has_byte_per_pixel(
    s: ReplayVisualSource,
    path: &str,
    read: Result<Vec<u8>, String>,
    r: Result<Vec<u8>, String>,
)
    requires
        s.image_size() <= u32::MAX,
        call_ensures(ReplayVisualSource::load, (&s, path, read), r),
    ensures
        ({
            let size = s.frame_width() * s.frame_height();
            &&& read matches Err(e) ==> r matches Err(m) && m@ == "cannot read "@ + path@ + ": "@
                + e@
            &&& read matches Ok(data) ==> {
                &&& r is Ok <==> data.len() == size
                &&& r matches Ok(image) ==> image@ == data@
                &&& r matches Err(m) ==> m@ == path@ + ": expected "@ + text::digits_of(size as nat)
                    + " bytes, got "@ + text::digits_of(data.len() as nat)
            }
        }),
{
    assert(0 <= s.width * s.height) by (nonlinear_arith)
        requires
            0 <= s.width,
            0 <= s.height,
    ;
}

/// A pair comes out where both images are there, each on its side, and only then the
/// replay moves on. A left image that is missing ends the replay, but for the first one,
/// which is complained about, as is a missing right one.
pub proof fn law_pair_needs_both_images(
    s: &mut ReplayVisualSource,
    left: Result<Vec<u8>, String>,
    right: Result<Vec<u8>, String>,
    r: Result<(Vec<u8>, Vec<u8>), String>,
)
    requires
        call_ensures(ReplayVisualSource::next_frame, (s, left, right), r),
    ensures
        r is Ok <==> left is Ok && right is Ok,
        r matches Ok(pair) ==> pair.0@ == left->Ok_0@ && pair.1@ == right->Ok_0@,
        r is Ok ==> final(s).next_index() == old(s).next_index() + 1,
        r is Err ==> final(s).next_index() == old(s).next_index(),
        left is Err && old(s).next_index() == 0 ==> r->Err_0@ == left->Err_0@,
        left is Err && old(s).next_index() > 0 ==> r->Err_0@ == "end of visual replay"@,
        left is Ok && right is Err ==> r->Err_0@ == right->Err_0@,
        final(s).directory() == old(s).directory(),
        final(s).frame_width() == old(s).frame_width(),
        final(s).frame_height() == old(s).frame_height(),
{
}

/// Each further file counts as a frame where its name starts as that of a left image and
/// ends as that of an image.
pub proof fn law_left_images_count(
    names: Vec<String>,
    n: usize,
    more: Vec<String>,
    name: String,
    m: usize,
)
    requires
        call_ensures(replay_visual_frames, (&names,), n),
        more@ == names@.push(name),
        call_ensures(replay_visual_frames, (&more,), m),
    ensures
        names.len() == 0 ==> n == 0,
        ({
            let counts = name@.len() >= 5 && name@.subrange(0, 5) == "left_"@ && name@.subrange(
                name@.len() - 4,
                name@.len() as int,
            ) == ".raw"@;
            &&& counts ==> m == n + 1
            &&& !counts ==> m == n
        }),
{
    reveal_strlit("left_");
    reveal_strlit(".raw");
    lemma_left_images_prefix(names@, more@, names.len() as int);
    assert(more@[names.len() as int] == name);
}

proof fn lemma_left_images_prefix(names: Seq<String>, more: Seq<String>, n: int)
    requires
        n <= names.len() <= more.len(),
        forall|i: int| 0 <= i < n ==> names[i] == more[i],
    ensures
        left_images(names, n) == left_images(more, n),
    decreases n,
{
    if n > 0 {
        lemma_left_images_prefix(names, more, n - 1);
    }
}

/// The tracking cameras are the first ones of their names; where one of them is missing
/// there is no pair.
pub proof fn law_cameras_are_found_by_name(names: Vec<String>, r: Option<(usize, usize)>)
    requires
        call_ensures(slam_cameras, (&names,), r),
    ensures
        r matches Some((a, b)) ==> {
            &&& a < names.len() && names@[a as int]@ == "Nreal Light SLAM left"@
            &&& b < names.len() && names@[b as int]@ == "Nreal Light SLAM right"@
            &&& forall|i: int| 0 <= i < a ==> (#[trigger] names@[i])@ != "Nreal Light SLAM left"@
            &&& forall|i: int| 0 <= i < b ==> (#[trigger] names@[i])@ != "Nreal Light SLAM right"@
        },
        r is None ==> {
            ||| forall|i: int|
                0 <= i < names.len() ==> (#[trigger] names@[i])@ != "Nreal Light SLAM left"@
            ||| forall|i: int|
                0 <= i < names.len() ==> (#[trigger] names@[i])@ != "Nreal Light SLAM right"@
        },
{
    lemma_first_named(names@, "Nreal Light SLAM left"@, 0);
    lemma_first_named(names@, "Nreal Light SLAM right"@, 0);
}

proof fn lemma_first_named(names: Seq<String>, name: Seq<char>, i: int)
    requires
        0 <= i,
    ensures
        match first_named(names, name, i) {
            Some(a) => {
                &&& i <= a < names.len()
                &&& names[a]@ == name
                &&& forall|k: int| i <= k < a ==> (#[trigger] names[k])@ != name
            },
            None => forall|k: int| i <= k < names.len() ==> (#[trigger] names[k])@ != name,
        },
    decreases names.len() - i,
{
    if i < names.len() && names[i]@ != name {
        lemma_first_named(names, name, i + 1);
    }
}

} // verus!
