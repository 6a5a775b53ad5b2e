//! Samples and poses as lines of JSON.

use crate::double::Double;
use crate::text;
use crate::text::{quoted, same, split, split_once, trim, trim_matches};
use vstd::prelude::*;

verus! {

/// One inertial sample: accelerometer in m/s², gyroscope in rad/s, and the time in
/// seconds since the stream began.
#[derive(Debug, Clone, Copy, PartialEq, Eq, Structural)]
pub struct ImuSample {
    pub t: Double,
    pub ax: Double,
    pub ay: Double,
    pub az: Double,
    pub gx: Double,
    pub gy: Double,
    pub gz: Double,
}

/// The keys of a sample's fields, in the order in which they are written.
pub open spec fn imu_keys() -> Seq<Seq<char>> {
    seq!["t"@, "ax"@, "ay"@, "az"@, "gx"@, "gy"@, "gz"@]
}

/// The entry of the key `key` with the value `value`.
pub open spec fn entry(key: Seq<char>, value: Seq<char>) -> Seq<char> {
    "\""@ + key + "\": "@ + value
}

/// The entries of the keys with their values, from the first to the `n`th, with a
/// comma and a space between them.
pub open spec fn entries(keys: Seq<Seq<char>>, values: Seq<Seq<char>>, n: int) -> Seq<char>
    decreases n,
{
    if n <= 0 {
        Seq::empty()
    } else if n == 1 {
        entry(keys[0], values[0])
    } else {
        entries(keys, values, n - 1) + ", "@ + entry(keys[n - 1], values[n - 1])
    }
}

/// The line of an object with these entries.
pub open spec fn object_line(keys: Seq<Seq<char>>, values: Seq<Seq<char>>) -> Seq<char> {
    "{"@ + entries(keys, values, keys.len() as int) + "}\n"@
}

fn write_object(keys: &Vec<String>, values: &Vec<String>) -> (r: String)
    requires
        keys.len() == values.len(),
    ensures
        r@ == object_line(text::texts(keys@), text::texts(values@)),
{
    let ghost ks = text::texts(keys@);
    let ghost vs = text::texts(values@);
    let mut line = "{".to_owned();
    let mut i: usize = 0;
    assert("{"@ + entries(ks, vs, 0) =~= "{"@);
    while i < keys.len()
        invariant
            i <= keys.len(),
            keys.len() == values.len(),
            ks == text::texts(keys@),
            vs == text::texts(values@),
            line@ == "{"@ + entries(ks, vs, i as int),
        decreases keys.len() - i,
    {
        let ghost before = line@;
        if i > 0 {
            line.append(", ");
        }
        line.append("\"");
        line.append(keys[i].as_str());
        line.append("\": ");
        line.append(values[i].as_str());
        i += 1;
        assert(line@ =~= "{"@ + entries(ks, vs, i as int));
    }
    line.append("}\n");
    line
}

/// The line of a sample, from the texts of its numbers `t`, `ax`, `ay`, `az`, `gx`,
/// `gy` and `gz`.
pub fn write_imu(values: &[String; 7]) -> (r: String)
    ensures
        r@ == object_line(imu_keys(), text::texts(values@)),
{
    let keys = vec![
        "t".to_owned(),
        "ax".to_owned(),
        "ay".to_owned(),
        "az".to_owned(),
        "gx".to_owned(),
        "gy".to_owned(),
        "gz".to_owned(),
    ];
    let mut list: Vec<String> = Vec::new();
    let mut i: usize = 0;
    while i < 7
        invariant
            i <= 7,
            list.len() == i,
            forall|j: int| 0 <= j < i ==> (#[trigger] list@[j])@ == values@[j]@,
        decreases 7 - i,
    {
        list.push(values[i].as_str().to_owned());
        i += 1;
    }
    assert(text::texts(list@) =~= text::texts(values@));
    assert(text::texts(keys@) =~= imu_keys());
    write_object(&keys, &list)
}

/// The keys of a pose's fields, without or with its position.
pub open spec fn pose_keys(with_position: bool) -> Seq<Seq<char>> {
    let angles = seq!["t"@, "yaw"@, "pitch"@, "roll"@];
    if with_position {
        angles + seq!["x"@, "y"@, "z"@]
    } else {
        angles
    }
}

/// The line of a pose, from the texts of its time, of its angles in wire units and
/// of its position, where it has one.
pub fn write_pose(t: &str, ypr: &[String; 3], position: Option<&[String; 3]>) -> (r: String)
    ensures
        r@ == object_line(
            pose_keys(position is Some),
            seq![t@] + text::texts(ypr@) + match position {
                Some(p) => text::texts(p@),
                None => Seq::empty(),
            },
        ),
{
    let mut keys = vec!["t".to_owned(), "yaw".to_owned(), "pitch".to_owned(), "roll".to_owned()];
    let mut list = vec![
        t.to_owned(),
        ypr[0].as_str().to_owned(),
        ypr[1].as_str().to_owned(),
        ypr[2].as_str().to_owned(),
    ];
    if let Some(p) = position {
        keys.push("x".to_owned());
        keys.push("y".to_owned());
        keys.push("z".to_owned());
        list.push(p[0].as_str().to_owned());
        list.push(p[1].as_str().to_owned());
        list.push(p[2].as_str().to_owned());
    }
    assert(text::texts(keys@) =~= pose_keys(position is Some));
    assert(text::texts(list@) =~= seq![t@] + text::texts(ypr@) + match position {
        Some(p) => text::texts(p@),
        None => Seq::empty(),
    });
    write_object(&keys, &list)
}

/// What stands between the braces of a text that begins and ends with them.
pub open spec fn braced(s: Seq<char>) -> Option<Seq<char>> {
    if s.len() >= 2 && s.first() == '{' && s.last() == '}' {
        Some(s.subrange(1, s.len() - 1))
    } else {
        None
    }
}

/// The pieces between the commas of an object.
pub open spec fn pieces(inner: Seq<char>) -> Seq<Seq<char>> {
    text::split_all(inner, ',')
}

/// The text of the value in a piece; empty where the piece has no colon.
pub open spec fn value_text(piece: Seq<char>) -> Seq<char> {
    match text::split_first(piece, ':') {
        Some((_, v)) => text::trimmed(v),
        None => Seq::empty(),
    }
}

/// The texts that stand as values in a line, in order.
pub open spec fn value_texts_of(line: Seq<char>) -> Seq<Seq<char>> {
    match braced(text::trimmed(line)) {
        Some(inner) => pieces(inner).map_values(|p: Seq<char>| value_text(p)),
        None => Seq::empty(),
    }
}

/// The place of a key among those of a sample.
pub open spec fn key_index(key: Seq<char>) -> Option<int> {
    if key == "t"@ {
        Some(0)
    } else if key == "ax"@ {
        Some(1)
    } else if key == "ay"@ {
        Some(2)
    } else if key == "az"@ {
        Some(3)
    } else if key == "gx"@ {
        Some(4)
    } else if key == "gy"@ {
        Some(5)
    } else if key == "gz"@ {
        Some(6)
    } else {
        None
    }
}

/// The key in a piece's part before the colon.
pub open spec fn key_text(k: Seq<char>) -> Seq<char> {
    text::stripped(text::trimmed(k), '"')
}

/// The fields `f` after the piece `piece`, whose value reads as `number`. What is
/// neither NaN nor infinite counts as a number. A key that is not a field of a sample
/// is passed over, but its value must read as a number too.
pub open spec fn with_piece(
    f: Seq<Option<Double>>,
    piece: Seq<char>,
    number: Option<Double>,
) -> Result<Seq<Option<Double>>, Seq<char>> {
    match text::split_first(piece, ':') {
        None => Err("malformed key/value pair: "@ + text::debug_text(piece)),
        Some((k, v)) => if number matches Some(x) && x.finite() {
            match key_index(key_text(k)) {
                Some(i) => Ok(f.update(i, number)),
                None => Ok(f),
            }
        } else {
            Err(
                "invalid number for "@ + text::debug_text(key_text(k)) + ": "@ + text::debug_text(
                    v,
                ),
            )
        },
    }
}

/// The `i`th reading, where there is one.
pub open spec fn reading(numbers: Seq<Option<Double>>, i: int) -> Option<Double> {
    if 0 <= i < numbers.len() {
        numbers[i]
    } else {
        None
    }
}

/// The fields after the first `n` pieces, or the complaint about the first piece
/// that is wrong.
pub open spec fn fields_after(
    ps: Seq<Seq<char>>,
    numbers: Seq<Option<Double>>,
    n: int,
) -> Result<Seq<Option<Double>>, Seq<char>>
    decreases n,
{
    if n <= 0 {
        Ok(Seq::new(7, |i: int| None::<Double>))
    } else {
        match fields_after(ps, numbers, n - 1) {
            Err(m) => Err(m),
            Ok(f) => with_piece(f, ps[n - 1], reading(numbers, n - 1)),
        }
    }
}

/// The first field from the `i`th on that is missing.
pub open spec fn first_missing(f: Seq<Option<Double>>, i: int) -> Option<int>
    decreases 7 - i,
{
    if i >= 7 {
        None
    } else if f[i] is None {
        Some(i)
    } else {
        first_missing(f, i + 1)
    }
}

/// The sample with these fields.
pub open spec fn sample_of(f: Seq<Double>) -> ImuSample {
    ImuSample { t: f[0], ax: f[1], ay: f[2], az: f[3], gx: f[4], gy: f[5], gz: f[6] }
}

/// What a line says, given the numbers that its values read as.
pub open spec fn parsed_line(line: Seq<char>, numbers: Seq<Option<Double>>) -> Result<
    Option<ImuSample>,
    Seq<char>,
> {
    let t = text::trimmed(line);
    if t.len() == 0 {
        Ok(None)
    } else {
        match braced(t) {
            None => Err("line is not a JSON object"@),
            Some(inner) => {
                let ps = pieces(inner);
                match fields_after(ps, numbers, ps.len() as int) {
                    Err(m) => Err(m),
                    Ok(f) => match first_missing(f, 0) {
                        Some(i) => Err("missing field "@ + text::debug_text(imu_keys()[i])),
                        None => Ok(Some(sample_of(f.map_values(|x: Option<Double>| x->0)))),
                    },
                }
            },
        }
    }
}

fn strip_braces(s: &str) -> (r: Option<&str>)
    ensures
        match (r, braced(s@)) {
            (Some(a), Some(b)) => a@ == b,
            (None, None) => true,
            _ => false,
        },
{
    let n: usize = s.unicode_len();
    if n >= 2 && s.get_char(0) == '{' && s.get_char(n - 1) == '}' {
        Some(s.substring_char(1, n - 1))
    } else {
        None
    }
}

/// The texts that stand as values in a line, in order: what has to be read as
/// numbers before the line can be parsed.
pub fn value_texts(line: &str) -> (r: Vec<String>)
    ensures
        text::texts(r@) == value_texts_of(line@),
{
    let mut out: Vec<String> = Vec::new();
    match strip_braces(trim(line)) {
        None => {},
        Some(inner) => {
            let parts = split(inner, ',');
            let ghost ps = pieces(inner@);
            let mut i: usize = 0;
            while i < parts.len()
                invariant
                    i <= parts.len(),
                    text::texts(parts@) == ps,
                    out.len() == i,
                    forall|j: int| 0 <= j < i ==> (#[trigger] out@[j])@ == value_text(ps[j]),
                decreases parts.len() - i,
            {
                assert(parts@[i as int]@ == text::texts(parts@)[i as int]);
                match split_once(parts[i].as_str(), ':') {
                    Some((_, v)) => {
                        out.push(trim(v).to_owned());
                    },
                    None => {
                        out.push(String::new());
                    },
                }
                i += 1;
            }
            assert(parts.len() == text::texts(parts@).len());
        },
    }
    assert(text::texts(out@) =~= value_texts_of(line@));
    out
}

fn index_of(key: &str) -> (r: Option<usize>)
    ensures
        match (r, key_index(key@)) {
            (Some(a), Some(b)) => a == b && a < 7,
            (None, None) => true,
            _ => false,
        },
{
    if same(key, "t") {
        Some(0)
    } else if same(key, "ax") {
        Some(1)
    } else if same(key, "ay") {
        Some(2)
    } else if same(key, "az") {
        Some(3)
    } else if same(key, "gx") {
        Some(4)
    } else if same(key, "gy") {
        Some(5)
    } else if same(key, "gz") {
        Some(6)
    } else {
        None
    }
}

fn key_name(i: usize) -> (r: &'static str)
    requires
        i < 7,
    ensures
        r@ == imu_keys()[i as int],
{
    if i == 0 {
        "t"
    } else if i == 1 {
        "ax"
    } else if i == 2 {
        "ay"
    } else if i == 3 {
        "az"
    } else if i == 4 {
        "gx"
    } else if i == 5 {
        "gy"
    } else {
        "gz"
    }
}

fn read_fields(inner: &str, numbers: &Vec<Option<Double>>) -> (r: Result<
    Vec<Option<Double>>,
    String,
>)
    ensures
        match (r, fields_after(pieces(inner@), numbers@, pieces(inner@).len() as int)) {
            (Ok(f), Ok(g)) => f@ == g && f.len() == 7,
            (Err(m), Err(n)) => m@ == n,
            _ => false,
        },
{
    let parts = split(inner, ',');
    let ghost ps = pieces(inner@);
    let mut f: Vec<Option<Double>> = vec![None, None, None, None, None, None, None];
    assert(f@ =~= Seq::new(7, |i: int| None::<Double>));
    let mut i: usize = 0;
    while i < parts.len()
        invariant
            i <= parts.len(),
            text::texts(parts@) == ps,
            ps == pieces(inner@),
            f.len() == 7,
            fields_after(ps, numbers@, i as int) == Ok::<_, Seq<char>>(f@),
        decreases parts.len() - i,
    {
        let part = parts[i].as_str();
        assert(parts@[i as int]@ == text::texts(parts@)[i as int]);
        let number = if i < numbers.len() {
            numbers[i]
        } else {
            None
        };
        let ghost step = with_piece(f@, part@, number);
        assert(fields_after(ps, numbers@, i + 1) == step);
        let (k, v) = match split_once(part, ':') {
            Some(kv) => kv,
            None => {
                let mut m = "malformed key/value pair: ".to_owned();
                m.append(quoted(part).as_str());
                proof {
                    lemma_error_stays(ps, numbers@, i + 1, ps.len() as int);
                }
                return Err(m);
            },
        };
        let key = trim_matches(trim(k), '"');
        let is_number = match number {
            Some(x) => x.is_finite(),
            None => false,
        };
        if !is_number {
            let mut m = "invalid number for ".to_owned();
            m.append(quoted(key).as_str());
            m.append(": ");
            m.append(quoted(v).as_str());
            proof {
                lemma_error_stays(ps, numbers@, i + 1, ps.len() as int);
            }
            return Err(m);
        }
        if let Some(at) = index_of(key) {
            f[at] = number;
        }
        i += 1;
    }
    assert(parts.len() == text::texts(parts@).len());
    Ok(f)
}

proof fn lemma_error_stays(ps: Seq<Seq<char>>, numbers: Seq<Option<Double>>, k: int, n: int)
    requires
        0 <= k <= n,
        fields_after(ps, numbers, k) is Err,
    ensures
        fields_after(ps, numbers, n) == fields_after(ps, numbers, k),
    decreases n - k,
{
    if k < n {
        lemma_error_stays(ps, numbers, k, n - 1);
    }
}

/// Parses one line of a sample log, where `numbers` are the readings of its
/// [`value_texts`].
///
/// `Ok(None)` for a blank line; `Err` for one that is malformed, lacks a field or
/// holds a value that is no finite number.
/// Keys that are not known are passed over.
pub fn parse_imu_line(line: &str, numbers: &Vec<Option<Double>>) -> (r: Result<
    Option<ImuSample>,
    String,
>)
    ensures
        match (r, parsed_line(line@, numbers@)) {
            (Ok(a), Ok(b)) => a == b,
            (Err(m), Err(n)) => m@ == n,
            _ => false,
        },
{
    let t = trim(line);
    if t.unicode_len() == 0 {
        return Ok(None);
    }
    let inner = match strip_braces(t) {
        Some(inner) => inner,
        None => {
            return Err("line is not a JSON object".to_owned());
        },
    };
    let f = match read_fields(inner, numbers) {
        Ok(f) => f,
        Err(m) => {
            return Err(m);
        },
    };
    let mut i: usize = 0;
    while i < 7
        invariant
            i <= 7,
            f.len() == 7,
            first_missing(f@, 0) == first_missing(f@, i as int),
            forall|j: int| 0 <= j < i ==> (#[trigger] f@[j]) is Some,
            parsed_line(line@, numbers@) == match first_missing(f@, 0) {
                Some(i) => Err("missing field "@ + text::debug_text(imu_keys()[i])),
                None => Ok(Some(sample_of(f@.map_values(|x: Option<Double>| x->0)))),
            },
        decreases 7 - i,
    {
        if f[i].is_none() {
            let mut m = "missing field ".to_owned();
            m.append(quoted(key_name(i)).as_str());
            return Err(m);
        }
        i += 1;
    }
    Ok(
        Some(
            ImuSample {
                t: f[0].unwrap(),
                ax: f[1].unwrap(),
                ay: f[2].unwrap(),
                az: f[3].unwrap(),
                gx: f[4].unwrap(),
                gy: f[5].unwrap(),
                gz: f[6].unwrap(),
            },
        ),
    )
}

/// A text that can stand as a value: no comma in it and no white space around it.
pub open spec fn plain(value: Seq<char>) -> bool {
    !value.contains(',') && text::trimmed(value) == value
}

/// A text that can stand as a key: letters only.
pub open spec fn plain_key(key: Seq<char>) -> bool {
    key.len() > 0 && forall|i: int| 0 <= i < key.len() ==> 'a' <= #[trigger] key[i] <= 'z'
}

/// The `i`th piece of an object with these entries.
pub open spec fn written_piece(keys: Seq<Seq<char>>, values: Seq<Seq<char>>, i: int) -> Seq<char> {
    if i == 0 {
        entry(keys[0], values[0])
    } else {
        seq![' '] + entry(keys[i], values[i])
    }
}

proof fn lemma_no_comma(key: Seq<char>, value: Seq<char>)
    requires
        plain_key(key),
        plain(value),
    ensures
        !entry(key, value).contains(','),
        !(seq![' '] + entry(key, value)).contains(','),
{
    reveal_strlit("\"");
    reveal_strlit("\": ");
    let e = entry(key, value);
    assert forall|i: int| 0 <= i < e.len() implies e[i] != ',' by {
        let n = key.len();
        if i == 0 {
        } else if i <= n {
            assert(e[i] == key[i - 1]);
        } else if i < n + 4 {
        } else {
            assert(e[i] == value[i - n - 4]);
            assert(value.contains(value[i - n - 4]));
        }
    }
    let f = seq![' '] + e;
    assert forall|i: int| 0 <= i < f.len() implies f[i] != ',' by {
        if i > 0 {
            assert(f[i] == e[i - 1]);
        }
    }
}

proof fn lemma_pieces(keys: Seq<Seq<char>>, values: Seq<Seq<char>>, n: int)
    requires
        1 <= n <= keys.len(),
        keys.len() == values.len(),
        forall|i: int| 0 <= i < keys.len() ==> plain_key(#[trigger] keys[i]),
        forall|i: int| 0 <= i < values.len() ==> plain(#[trigger] values[i]),
    ensures
        pieces(entries(keys, values, n)) == Seq::new(
            n as nat,
            |i: int| written_piece(keys, values, i),
        ),
    decreases n,
{
    let goal = Seq::new(n as nat, |i: int| written_piece(keys, values, i));
    lemma_no_comma(keys[n - 1], values[n - 1]);
    if n == 1 {
        let e = entry(keys[0], values[0]);
        text::lemma_split_first_parts(e, ',');
        if let Some((a, b)) = text::split_first(e, ',') {
            assert((a + seq![','] + b)[a.len() as int] == ',');
        }
        assert(pieces(e) =~= goal);
    } else {
        lemma_pieces(keys, values, n - 1);
        let x = entries(keys, values, n - 1);
        let y = seq![' '] + entry(keys[n - 1], values[n - 1]);
        reveal_strlit(", ");
        assert(entries(keys, values, n) =~= x + seq![','] + y);
        text::lemma_split_all_push(x, y, ',');
        assert(pieces(x).push(y) =~= goal);
    }
}

proof fn lemma_written_piece(keys: Seq<Seq<char>>, values: Seq<Seq<char>>, i: int)
    requires
        0 <= i < keys.len(),
        keys.len() == values.len(),
        plain_key(keys[i]),
        plain(values[i]),
    ensures
        ({
            let p = written_piece(keys, values, i);
            &&& value_text(p) == values[i]
            &&& text::split_first(p, ':') matches Some((k, v)) && key_text(k) == keys[i]
        }),
{
    reveal_strlit("\"");
    reveal_strlit("\": ");
    let key = keys[i];
    let value = values[i];
    let lead = if i == 0 {
        Seq::empty()
    } else {
        seq![' ']
    };
    let quoted_key = seq!['"'] + key + seq!['"'];
    let k = lead + quoted_key;
    let v = seq![' '] + value;
    let p = written_piece(keys, values, i);
    assert(p =~= k + seq![':'] + v);
    let m = lead.len();
    assert(k.len() == m + key.len() + 2);
    assert forall|j: int| 0 <= j < k.len() implies k[j] != ':' by {
        if j == m || j == k.len() - 1 {
        } else if j > m {
            assert(k[j] == key[j - m - 1]);
        }
    }
    text::lemma_split_first_of_parts(k, v, ':');
    // The value.
    assert(v.drop_first() =~= value);
    assert(text::trim_start(v) == text::trim_start(value));
    // The key.
    text::lemma_trim_start_at(k, m as int);
    assert(k.subrange(m as int, k.len() as int) =~= quoted_key);
    text::lemma_trim_end_at(quoted_key, quoted_key.len() as int);
    assert(quoted_key.subrange(0, quoted_key.len() as int) =~= quoted_key);
    assert(quoted_key[1] == key[0]);
    text::lemma_strip_start_at(quoted_key, '"', 1);
    let rest = quoted_key.subrange(1, quoted_key.len() as int);
    assert(rest =~= key + seq!['"']);
    assert(rest[key.len() - 1] == key[key.len() - 1]);
    text::lemma_strip_end_at(rest, '"', key.len() as int);
    assert(rest.subrange(0, key.len() as int) =~= key);
}

proof fn lemma_imu_keys()
    ensures
        forall|i: int|
            0 <= i < 7 ==> {
                &&& plain_key(#[trigger] imu_keys()[i])
                &&& key_index(imu_keys()[i]) == Some(i)
            },
{
    reveal_strlit("t");
    reveal_strlit("ax");
    reveal_strlit("ay");
    reveal_strlit("az");
    reveal_strlit("gx");
    reveal_strlit("gy");
    reveal_strlit("gz");
    assert("t"@.len() == 1 && "ax"@.len() == 2);
    assert("ax"@[0] == 'a' && "ay"@[0] == 'a' && "az"@[0] == 'a');
    assert("gx"@[0] == 'g' && "gy"@[0] == 'g' && "gz"@[0] == 'g');
    assert("ax"@[1] == 'x' && "ay"@[1] == 'y' && "az"@[1] == 'z');
    assert("gx"@[1] == 'x' && "gy"@[1] == 'y' && "gz"@[1] == 'z');
}

proof fn lemma_trimmed_line(e: Seq<char>)
    ensures
        braced(text::trimmed("{"@ + e + "}\n"@)) == Some(e),
        text::trimmed("{"@ + e + "}\n"@).len() > 0,
{
    reveal_strlit("{");
    reveal_strlit("}\n");
    let line = "{"@ + e + "}\n"@;
    let n = line.len() as int;
    assert(line[0] == '{' && line[n - 2] == '}' && line[n - 1] == '\n');
    text::lemma_trim_start_at(line, 0);
    assert(line.subrange(0, n) =~= line);
    text::lemma_trim_end_at(line, n - 1);
    assert(line.subrange(0, n - 1).subrange(1, n - 2) =~= e);
}

/// A sample of finite numbers that was written reads back: the texts of its numbers
/// stand as the line's values, and the line parses to the sample of the numbers that
/// they read as.
pub proof fn law_written_sample_reads_back(values: Seq<Seq<char>>, numbers: Seq<Double>)
    requires
        values.len() == 7,
        numbers.len() == 7,
        forall|i: int| 0 <= i < 7 ==> plain(#[trigger] values[i]),
        forall|i: int| 0 <= i < 7 ==> (#[trigger] numbers[i]).finite(),
    ensures
        value_texts_of(object_line(imu_keys(), values)) == values,
        parsed_line(
            object_line(imu_keys(), values),
            numbers.map_values(|x: Double| Some(x)),
        ) == Ok::<_, Seq<char>>(Some(sample_of(numbers))),
{
    law_extra_keys_are_ignored(Seq::empty(), values, numbers);
    assert(imu_keys() + Seq::<Seq<char>>::empty() =~= imu_keys());
}

/// Keys behind those of a sample that are not known change nothing, so long as
/// their values are finite numbers.
pub proof fn law_extra_keys_are_ignored(
    extra: Seq<Seq<char>>,
    values: Seq<Seq<char>>,
    numbers: Seq<Double>,
)
    requires
        values.len() == 7 + extra.len(),
        numbers.len() == 7 + extra.len(),
        forall|i: int|
            0 <= i < extra.len() ==> plain_key(#[trigger] extra[i]) && key_index(extra[i]) is None,
        forall|i: int| 0 <= i < values.len() ==> plain(#[trigger] values[i]),
        forall|i: int| 0 <= i < numbers.len() ==> (#[trigger] numbers[i]).finite(),
    ensures
        value_texts_of(object_line(imu_keys() + extra, values)) == values,
        parsed_line(
            object_line(imu_keys() + extra, values),
            numbers.map_values(|x: Double| Some(x)),
        ) == Ok::<_, Seq<char>>(Some(sample_of(numbers))),
{
    let keys = imu_keys() + extra;
    let n = keys.len() as int;
    let e = entries(keys, values, n);
    lemma_imu_keys();
    assert forall|i: int| 0 <= i < n implies plain_key(#[trigger] keys[i]) by {
        if i < 7 {
            assert(keys[i] == imu_keys()[i]);
        } else {
            assert(keys[i] == extra[i - 7]);
        }
    }
    lemma_trimmed_line(e);
    lemma_pieces(keys, values, n);
    let ps = pieces(e);
    assert forall|i: int| 0 <= i < n implies value_text(ps[i]) == values[i] by {
        lemma_written_piece(keys, values, i);
    }
    assert(value_texts_of(object_line(keys, values)) =~= values);
    lemma_fields_read_back(extra, values, numbers, n);
    let f = filled(numbers, n);
    assert(first_missing(f, 0) is None) by {
        reveal_with_fuel(first_missing, 9);
    }
    let g = f.map_values(|x: Option<Double>| x->0);
    assert(g =~= numbers.subrange(0, 7));
}

/// The first `n` numbers of a sample, and nothing behind them.
spec fn filled(numbers: Seq<Double>, n: int) -> Seq<Option<Double>> {
    Seq::new(
        7,
        |i: int|
            if i < n {
                Some(numbers[i])
            } else {
                None
            },
    )
}

proof fn lemma_fields_read_back(
    extra: Seq<Seq<char>>,
    values: Seq<Seq<char>>,
    numbers: Seq<Double>,
    n: int,
)
    requires
        values.len() == 7 + extra.len(),
        numbers.len() == 7 + extra.len(),
        forall|i: int|
            0 <= i < extra.len() ==> plain_key(#[trigger] extra[i]) && key_index(extra[i]) is None,
        forall|i: int| 0 <= i < values.len() ==> plain(#[trigger] values[i]),
        forall|i: int| 0 <= i < numbers.len() ==> (#[trigger] numbers[i]).finite(),
        0 <= n <= values.len(),
    ensures
        fields_after(
            pieces(entries(imu_keys() + extra, values, values.len() as int)),
            numbers.map_values(|x: Double| Some(x)),
            n,
        ) == Ok::<_, Seq<char>>(filled(numbers, n)),
    decreases n,
{
    let keys = imu_keys() + extra;
    let total = values.len() as int;
    let ps = pieces(entries(keys, values, total));
    lemma_imu_keys();
    if n == 0 {
        assert(filled(numbers, 0) =~= Seq::new(7, |i: int| None::<Double>));
    } else {
        assert forall|i: int| 0 <= i < total implies plain_key(#[trigger] keys[i]) by {
            if i < 7 {
                assert(keys[i] == imu_keys()[i]);
            } else {
                assert(keys[i] == extra[i - 7]);
            }
        }
        lemma_fields_read_back(extra, values, numbers, n - 1);
        lemma_pieces(keys, values, total);
        lemma_written_piece(keys, values, n - 1);
        assert(ps[n - 1] == written_piece(keys, values, n - 1));
        let before = filled(numbers, n - 1);
        if n <= 7 {
            assert(keys[n - 1] == imu_keys()[n - 1]);
            assert(before.update(n - 1, Some(numbers[n - 1])) =~= filled(numbers, n));
        } else {
            assert(keys[n - 1] == extra[n - 8]);
            assert(before =~= filled(numbers, n));
        }
    }
}

proof fn lemma_accepted_fields_are_finite(
    ps: Seq<Seq<char>>,
    numbers: Seq<Option<Double>>,
    n: int,
)
    requires
        0 <= n <= ps.len(),
    ensures
        fields_after(ps, numbers, n) matches Ok(f) ==> {
            &&& f.len() == 7
            &&& forall|i: int| 0 <= i < 7 ==> ((#[trigger] f[i]) matches Some(x) ==> x.finite())
        },
    decreases n,
{
    if n > 0 {
        lemma_accepted_fields_are_finite(ps, numbers, n - 1);
    }
}

/// A sample that was read holds finite numbers only.
pub proof fn law_samples_are_finite(line: Seq<char>, numbers: Seq<Option<Double>>)
    ensures
        parsed_line(line, numbers) matches Ok(Some(s)) ==> {
            &&& s.t.finite()
            &&& s.ax.finite() && s.ay.finite() && s.az.finite()
            &&& s.gx.finite() && s.gy.finite() && s.gz.finite()
        },
{
    if let Some(inner) = braced(text::trimmed(line)) {
        let ps = pieces(inner);
        lemma_accepted_fields_are_finite(ps, numbers, ps.len() as int);
        if let Ok(f) = fields_after(ps, numbers, ps.len() as int) {
            reveal_with_fuel(first_missing, 9);
            assert forall|i: int| 0 <= i < 7 && first_missing(f, 0) is None implies #[trigger]
                f[i] is Some by {}
        }
    }
}

/// Blank lines are passed over.
pub proof fn law_blank_line_is_skipped(line: Seq<char>, numbers: Seq<Option<Double>>)
    requires
        forall|i: int| 0 <= i < line.len() ==> text::is_white(#[trigger] line[i]),
    ensures
        parsed_line(line, numbers) == Ok::<Option<ImuSample>, Seq<char>>(None),
{
    text::lemma_trim_start_at(line, line.len() as int);
    assert(line.subrange(line.len() as int, line.len() as int) =~= Seq::empty());
}

/// The line of a sample, character by character: an object with the seven numbers behind
/// their keys, and the end of the line.
pub proof fn law_sample_line(values: [String; 7], r: String)
    requires
        call_ensures(write_imu, (&values,), r),
    ensures
        r@ == "{\"t\": "@ + values@[0]@ + ", \"ax\": "@ + values@[1]@ + ", \"ay\": "@ + values@[2]@
            + ", \"az\": "@ + values@[3]@ + ", \"gx\": "@ + values@[4]@ + ", \"gy\": "@
            + values@[5]@ + ", \"gz\": "@ + values@[6]@ + "}\n"@,
{
    lemma_leads();
    let v = text::texts(values@);
    let k = imu_keys();
    lemma_line_starts(k, v, "{\"t\": "@);
    lemma_line_grows(k, v, 2, ", \"ax\": "@);
    lemma_line_grows(k, v, 3, ", \"ay\": "@);
    lemma_line_grows(k, v, 4, ", \"az\": "@);
    lemma_line_grows(k, v, 5, ", \"gx\": "@);
    lemma_line_grows(k, v, 6, ", \"gy\": "@);
    lemma_line_grows(k, v, 7, ", \"gz\": "@);
}

/// What stands before the value of the key `key`, behind another entry.
spec fn lead_of(key: Seq<char>) -> Seq<char> {
    ", "@ + "\""@ + key + "\": "@
}

proof fn lemma_line_starts(keys: Seq<Seq<char>>, values: Seq<Seq<char>>, lead: Seq<char>)
    requires
        lead == "{"@ + "\""@ + keys[0] + "\": "@,
    ensures
        "{"@ + entries(keys, values, 1) == lead + values[0],
{
    assert("{"@ + entries(keys, values, 1) =~= lead + values[0]);
}

proof fn lemma_line_grows(keys: Seq<Seq<char>>, values: Seq<Seq<char>>, n: int, lead: Seq<char>)
    requires
        n >= 2,
        lead == lead_of(keys[n - 1]),
    ensures
        "{"@ + entries(keys, values, n) == "{"@ + entries(keys, values, n - 1) + lead + values[n
            - 1],
{
    assert("{"@ + entries(keys, values, n) =~= "{"@ + entries(keys, values, n - 1) + lead
        + values[n - 1]);
}

proof fn lemma_leads()
    ensures
        "{\"t\": "@ == "{"@ + "\""@ + "t"@ + "\": "@,
        ", \"ax\": "@ == lead_of("ax"@),
        ", \"ay\": "@ == lead_of("ay"@),
        ", \"az\": "@ == lead_of("az"@),
        ", \"gx\": "@ == lead_of("gx"@),
        ", \"gy\": "@ == lead_of("gy"@),
        ", \"gz\": "@ == lead_of("gz"@),
        ", \"yaw\": "@ == lead_of("yaw"@),
        ", \"pitch\": "@ == lead_of("pitch"@),
        ", \"roll\": "@ == lead_of("roll"@),
        ", \"x\": "@ == lead_of("x"@),
        ", \"y\": "@ == lead_of("y"@),
        ", \"z\": "@ == lead_of("z"@),
{
    lemma_line_parts();
    reveal_strlit("{\"t\": ");
    reveal_strlit(", \"ax\": ");
    reveal_strlit(", \"ay\": ");
    reveal_strlit(", \"az\": ");
    reveal_strlit(", \"gx\": ");
    reveal_strlit(", \"gy\": ");
    reveal_strlit(", \"gz\": ");
    reveal_strlit(", \"yaw\": ");
    reveal_strlit(", \"pitch\": ");
    reveal_strlit(", \"roll\": ");
    reveal_strlit(", \"x\": ");
    reveal_strlit(", \"y\": ");
    reveal_strlit(", \"z\": ");
    assert("{\"t\": "@ =~= "{"@ + "\""@ + "t"@ + "\": "@);
    assert(", \"ax\": "@ =~= lead_of("ax"@));
    assert(", \"ay\": "@ =~= lead_of("ay"@));
    assert(", \"az\": "@ =~= lead_of("az"@));
    assert(", \"gx\": "@ =~= lead_of("gx"@));
    assert(", \"gy\": "@ =~= lead_of("gy"@));
    assert(", \"gz\": "@ =~= lead_of("gz"@));
    assert(", \"yaw\": "@ =~= lead_of("yaw"@));
    assert(", \"pitch\": "@ =~= lead_of("pitch"@));
    assert(", \"roll\": "@ =~= lead_of("roll"@));
    assert(", \"x\": "@ =~= lead_of("x"@));
    assert(", \"y\": "@ =~= lead_of("y"@));
    assert(", \"z\": "@ =~= lead_of("z"@));
}

proof fn lemma_line_parts()
    ensures
        "{"@ == seq!['{'],
        "\""@ == seq!['"'],
        "\": "@ == seq!['"', ':', ' '],
        ", "@ == seq![',', ' '],
        "t"@ == seq!['t'],
        "ax"@ == seq!['a', 'x'],
        "ay"@ == seq!['a', 'y'],
        "az"@ == seq!['a', 'z'],
        "gx"@ == seq!['g', 'x'],
        "gy"@ == seq!['g', 'y'],
        "gz"@ == seq!['g', 'z'],
        "yaw"@ == seq!['y', 'a', 'w'],
        "pitch"@ == seq!['p', 'i', 't', 'c', 'h'],
        "roll"@ == seq!['r', 'o', 'l', 'l'],
        "x"@ == seq!['x'],
        "y"@ == seq!['y'],
        "z"@ == seq!['z'],
{
    reveal_strlit("{");
    reveal_strlit("\"");
    reveal_strlit("\": ");
    reveal_strlit(", ");
    reveal_strlit("t");
    reveal_strlit("ax");
    reveal_strlit("ay");
    reveal_strlit("az");
    reveal_strlit("gx");
    reveal_strlit("gy");
    reveal_strlit("gz");
    reveal_strlit("yaw");
    reveal_strlit("pitch");
    reveal_strlit("roll");
    reveal_strlit("x");
    reveal_strlit("y");
    reveal_strlit("z");
    assert("{"@ =~= seq!['{']);
    assert("\""@ =~= seq!['"']);
    assert("\": "@ =~= seq!['"', ':', ' ']);
    assert(", "@ =~= seq![',', ' ']);
    assert("t"@ =~= seq!['t']);
    assert("ax"@ =~= seq!['a', 'x']);
    assert("ay"@ =~= seq!['a', 'y']);
    assert("az"@ =~= seq!['a', 'z']);
    assert("gx"@ =~= seq!['g', 'x']);
    assert("gy"@ =~= seq!['g', 'y']);
    assert("gz"@ =~= seq!['g', 'z']);
    assert("yaw"@ =~= seq!['y', 'a', 'w']);
    assert("pitch"@ =~= seq!['p', 'i', 't', 'c', 'h']);
    assert("roll"@ =~= seq!['r', 'o', 'l', 'l']);
    assert("x"@ =~= seq!['x']);
    assert("y"@ =~= seq!['y']);
    assert("z"@ =~= seq!['z']);
}

/// The line of a pose, character by character: its time and its three angles behind
/// their keys, then the position where it has one.
pub proof fn law_pose_line(
    t: &str,
    ypr: [String; 3],
    place: [String; 3],
    turned: String,
    moved: String,
)
    requires
        call_ensures(write_pose, (t, &ypr, None::<&[String; 3]>), turned),
        call_ensures(write_pose, (t, &ypr, Some(&place)), moved),
    ensures
        ({
            let angles = "{\"t\": "@ + t@ + ", \"yaw\": "@ + ypr@[0]@ + ", \"pitch\": "@ + ypr@[1]@
                + ", \"roll\": "@ + ypr@[2]@;
            &&& turned@ == angles + "}\n"@
            &&& moved@ == angles + ", \"x\": "@ + place@[0]@ + ", \"y\": "@ + place@[1]@
                + ", \"z\": "@ + place@[2]@ + "}\n"@
        }),
{
    lemma_leads();
    let v = seq![t@] + text::texts(ypr@) + Seq::<Seq<char>>::empty();
    let k = pose_keys(false);
    assert(v =~= seq![t@, ypr@[0]@, ypr@[1]@, ypr@[2]@]);
    lemma_line_starts(k, v, "{\"t\": "@);
    lemma_line_grows(k, v, 2, ", \"yaw\": "@);
    lemma_line_grows(k, v, 3, ", \"pitch\": "@);
    lemma_line_grows(k, v, 4, ", \"roll\": "@);
    let w = seq![t@] + text::texts(ypr@) + text::texts(place@);
    let q = pose_keys(true);
    assert(w =~= seq![t@, ypr@[0]@, ypr@[1]@, ypr@[2]@, place@[0]@, place@[1]@, place@[2]@]);
    assert(q =~= seq!["t"@, "yaw"@, "pitch"@, "roll"@, "x"@, "y"@, "z"@]);
    lemma_line_starts(q, w, "{\"t\": "@);
    lemma_line_grows(q, w, 2, ", \"yaw\": "@);
    lemma_line_grows(q, w, 3, ", \"pitch\": "@);
    lemma_line_grows(q, w, 4, ", \"roll\": "@);
    lemma_line_grows(q, w, 5, ", \"x\": "@);
    lemma_line_grows(q, w, 6, ", \"y\": "@);
    lemma_line_grows(q, w, 7, ", \"z\": "@);
}

/// The fields of a sample after the first `n` entries, where the field `j` stands at
/// place `at[j]`.
spec fn found(at: Seq<int>, numbers: Seq<Double>, n: int) -> Seq<Option<Double>> {
    Seq::new(
        7,
        |j: int|
            if 0 <= at[j] < n {
                Some(numbers[at[j]])
            } else {
                None
            },
    )
}

proof fn lemma_fields_found(
    keys: Seq<Seq<char>>,
    values: Seq<Seq<char>>,
    numbers: Seq<Double>,
    at: Seq<int>,
    n: int,
)
    requires
        keys.len() == values.len() == numbers.len(),
        keys.len() >= 1,
        forall|i: int| 0 <= i < keys.len() ==> plain_key(#[trigger] keys[i]),
        forall|i: int| 0 <= i < keys.len() ==> plain(#[trigger] values[i]),
        forall|i: int| 0 <= i < keys.len() ==> (#[trigger] numbers[i]).finite(),
        at.len() == 7,
        forall|i: int, j: int|
            0 <= i < keys.len() && 0 <= j < 7 ==> (#[trigger] keys[i] == imu_keys()[j]
                <==> #[trigger] at[j] == i),
        0 <= n <= keys.len(),
    ensures
        fields_after(
            pieces(entries(keys, values, keys.len() as int)),
            numbers.map_values(|x: Double| Some(x)),
            n,
        ) == Ok::<_, Seq<char>>(found(at, numbers, n)),
    decreases n,
{
    let total = keys.len() as int;
    let ps = pieces(entries(keys, values, total));
    if n == 0 {
        assert(found(at, numbers, 0) =~= Seq::new(7, |i: int| None::<Double>));
    } else {
        lemma_fields_found(keys, values, numbers, at, n - 1);
        lemma_pieces(keys, values, total);
        lemma_written_piece(keys, values, n - 1);
        assert(ps[n - 1] == written_piece(keys, values, n - 1));
        lemma_imu_keys();
        let before = found(at, numbers, n - 1);
        let after = found(at, numbers, n);
        match key_index(keys[n - 1]) {
            Some(j) => {
                assert(keys[n - 1] == imu_keys()[j]);
                assert(at[j] == n - 1);
                assert forall|m: int| 0 <= m < 7 && m != j implies at[m] != n - 1 by {
                    if at[m] == n - 1 {
                        assert(keys[n - 1] == imu_keys()[m]);
                        assert(key_index(imu_keys()[m]) == Some(m));
                    }
                }
                assert(before.update(j, Some(numbers[n - 1])) =~= after);
            },
            None => {
                assert forall|m: int| 0 <= m < 7 implies at[m] != n - 1 by {
                    if at[m] == n - 1 {
                        assert(keys[n - 1] == imu_keys()[m]);
                        assert(key_index(imu_keys()[m]) == Some(m));
                    }
                }
                assert(before =~= after);
            },
        }
    }
}

/// The numbers of a sample are found by their keys, in whatever order they stand and
/// whatever other keys stand between them: `at` tells where each of the seven stands. The
/// first that stands nowhere is complained about.
pub proof fn law_fields_are_found_by_key(
    keys: Seq<Seq<char>>,
    values: Seq<Seq<char>>,
    numbers: Seq<Double>,
    at: Seq<int>,
    line: &str,
    readings: Vec<Option<Double>>,
    r: Result<Option<ImuSample>, String>,
    missing: int,
)
    requires
        keys.len() == values.len() == numbers.len(),
        keys.len() >= 1,
        forall|i: int| 0 <= i < keys.len() ==> plain_key(#[trigger] keys[i]),
        forall|i: int| 0 <= i < keys.len() ==> plain(#[trigger] values[i]),
        forall|i: int| 0 <= i < keys.len() ==> (#[trigger] numbers[i]).finite(),
        at.len() == 7,
        forall|i: int, j: int|
            0 <= i < keys.len() && 0 <= j < 7 ==> (#[trigger] keys[i] == seq![
                "t"@,
                "ax"@,
                "ay"@,
                "az"@,
                "gx"@,
                "gy"@,
                "gz"@,
            ][j] <==> #[trigger] at[j] == i),
        line@ == object_line(keys, values),
        readings@ == numbers.map_values(|x: Double| Some(x)),
        call_ensures(parse_imu_line, (line, &readings), r),
        0 <= missing <= 7,
        forall|j: int| 0 <= j < missing ==> 0 <= #[trigger] at[j] < keys.len(),
        missing < 7 ==> !(0 <= at[missing] < keys.len()),
    ensures
        missing == 7 ==> r matches Ok(Some(_)),
        missing == 7 ==> {
            let s = r->Ok_0->0;
            &&& s.t == numbers[at[0]]
            &&& s.ax == numbers[at[1]]
            &&& s.ay == numbers[at[2]]
            &&& s.az == numbers[at[3]]
            &&& s.gx == numbers[at[4]]
            &&& s.gy == numbers[at[5]]
            &&& s.gz == numbers[at[6]]
        },
        missing < 7 ==> r is Err && r->Err_0@ == "missing field "@ + text::debug_text(
            seq!["t"@, "ax"@, "ay"@, "az"@, "gx"@, "gy"@, "gz"@][missing],
        ),
{
    let n = keys.len() as int;
    let e = entries(keys, values, n);
    lemma_trimmed_line(e);
    lemma_fields_found(keys, values, numbers, at, n);
    lemma_pieces(keys, values, n);
    let f = found(at, numbers, n);
    assert(pieces(e).len() == n);
    assert forall|j: int| 0 <= j < missing implies (#[trigger] f[j]) is Some by {
        assert(0 <= at[j] < n);
    }
    lemma_first_missing(f, 0, missing);
    if missing == 7 {
        let g = f.map_values(|x: Option<Double>| x->0);
        assert forall|j: int| 0 <= j < 7 implies #[trigger] g[j] == numbers[at[j]] by {
            assert(0 <= at[j] < n);
        }
    }
}

proof fn lemma_first_missing(f: Seq<Option<Double>>, i: int, k: int)
    requires
        0 <= i <= k <= 7,
        forall|j: int| i <= j < k ==> (#[trigger] f[j]) is Some,
        k < 7 ==> f[k] is None,
    ensures
        first_missing(f, i) == if k < 7 {
            Some(k)
        } else {
            None
        },
    decreases k - i,
{
    if i < k {
        lemma_first_missing(f, i + 1, k);
    }
}

/// The texts that stand as values are those behind the colons of the entries, in order.
pub proof fn law_value_texts_are_the_values(
    keys: Seq<Seq<char>>,
    values: Seq<Seq<char>>,
    line: &str,
    r: Vec<String>,
)
    requires
        keys.len() == values.len(),
        keys.len() >= 1,
        forall|i: int| 0 <= i < keys.len() ==> plain_key(#[trigger] keys[i]),
        forall|i: int| 0 <= i < keys.len() ==> plain(#[trigger] values[i]),
        line@ == object_line(keys, values),
        call_ensures(value_texts, (line,), r),
    ensures
        r.len() == values.len(),
        forall|i: int| 0 <= i < r.len() ==> (#[trigger] r@[i])@ == values[i],
{
    let n = keys.len() as int;
    let e = entries(keys, values, n);
    lemma_trimmed_line(e);
    lemma_pieces(keys, values, n);
    assert(text::texts(r@).len() == r.len());
    assert forall|i: int| 0 <= i < r.len() implies (#[trigger] r@[i])@ == values[i] by {
        lemma_written_piece(keys, values, i);
        assert(text::texts(r@)[i] == r@[i]@);
    }
}

/// A line that is blank is passed over; one that holds something, but no braces at both
/// ends, is no object.
pub proof fn law_line_needs_braces(
    line: &str,
    readings: Vec<Option<Double>>,
    r: Result<Option<ImuSample>, String>,
)
    requires
        call_ensures(parse_imu_line, (line, &readings), r),
    ensures
        ({
            let t = text::trimmed(line@);
            let object = t.len() >= 2 && t.first() == '{' && t.last() == '}';
            &&& t.len() == 0 <==> r == Ok::<Option<ImuSample>, String>(None)
            &&& t.len() > 0 && !object ==> r is Err && r->Err_0@ == "line is not a JSON object"@
        }),
{
}

/// The first entry whose value is no finite number is complained about, by its key; the
/// values behind it do not matter.
pub proof fn law_bad_number_is_refused(
    keys: Seq<Seq<char>>,
    values: Seq<Seq<char>>,
    line: &str,
    readings: Vec<Option<Double>>,
    r: Result<Option<ImuSample>, String>,
    bad: int,
)
    requires
        keys.len() == values.len(),
        forall|i: int| 0 <= i < keys.len() ==> plain_key(#[trigger] keys[i]),
        forall|i: int| 0 <= i < keys.len() ==> plain(#[trigger] values[i]),
        line@ == object_line(keys, values),
        readings.len() == keys.len(),
        call_ensures(parse_imu_line, (line, &readings), r),
        0 <= bad < keys.len(),
        forall|i: int|
            0 <= i < bad ==> ((#[trigger] readings@[i]) matches Some(x) && x.finite()),
        readings@[bad] is None || !readings@[bad]->0.finite(),
    ensures
        r is Err,
        r->Err_0@ == "invalid number for "@ + text::debug_text(keys[bad]) + ": "@
            + text::debug_text(seq![' '] + values[bad]),
{
    let n = keys.len() as int;
    let e = entries(keys, values, n);
    lemma_trimmed_line(e);
    lemma_pieces(keys, values, n);
    let ps = pieces(e);
    assert forall|i: int| 0 <= i < n implies (#[trigger] text::split_first(ps[i], ':') matches Some(
        (k, v),
    ) && key_text(k) == keys[i] && v == seq![' '] + values[i]) by {
        lemma_written_piece(keys, values, i);
        lemma_piece_value(keys, values, i);
    }
    lemma_fields_upto(ps, readings@, bad);
    let m = "invalid number for "@ + text::debug_text(keys[bad]) + ": "@ + text::debug_text(
        seq![' '] + values[bad],
    );
    assert(text::split_first(ps[bad], ':') is Some);
    assert(fields_after(ps, readings@, bad + 1) == Err::<Seq<Option<Double>>, Seq<char>>(m));
    lemma_complaint_stays(ps, readings@, bad + 1, n, m);
}

proof fn lemma_piece_value(keys: Seq<Seq<char>>, values: Seq<Seq<char>>, i: int)
    requires
        0 <= i < keys.len(),
        keys.len() == values.len(),
        plain_key(keys[i]),
    ensures
        text::split_first(written_piece(keys, values, i), ':') matches Some((k, v)) && v == seq![' ']
            + values[i],
{
    lemma_line_parts();
    let key = keys[i];
    let lead = if i == 0 {
        Seq::empty()
    } else {
        seq![' ']
    };
    let k = lead + seq!['"'] + key + seq!['"'];
    let v = seq![' '] + values[i];
    let m = lead.len();
    assert(written_piece(keys, values, i) =~= k + seq![':'] + v);
    assert forall|j: int| 0 <= j < k.len() implies k[j] != ':' by {
        if j == m || j == k.len() - 1 {
        } else if j > m {
            assert(k[j] == key[j - m - 1]);
        }
    }
    text::lemma_split_first_of_parts(k, v, ':');
}

proof fn lemma_fields_upto(ps: Seq<Seq<char>>, numbers: Seq<Option<Double>>, n: int)
    requires
        0 <= n <= ps.len(),
        n <= numbers.len(),
        forall|i: int| 0 <= i < n ==> text::split_first(#[trigger] ps[i], ':') is Some,
        forall|i: int| 0 <= i < n ==> ((#[trigger] numbers[i]) matches Some(x) && x.finite()),
    ensures
        fields_after(ps, numbers, n) is Ok,
    decreases n,
{
    if n > 0 {
        lemma_fields_upto(ps, numbers, n - 1);
        assert(text::split_first(ps[n - 1], ':') is Some);
        assert(numbers[n - 1] is Some);
    }
}

proof fn lemma_complaint_stays(
    ps: Seq<Seq<char>>,
    numbers: Seq<Option<Double>>,
    n: int,
    total: int,
    m: Seq<char>,
)
    requires
        0 <= n <= total,
        fields_after(ps, numbers, n) == Err::<Seq<Option<Double>>, Seq<char>>(m),
    ensures
        fields_after(ps, numbers, total) == Err::<Seq<Option<Double>>, Seq<char>>(m),
    decreases total - n,
{
    if n < total {
        lemma_complaint_stays(ps, numbers, n, total - 1, m);
    }
}

/// An object whose only entry has no colon is complained about.
pub proof fn law_entry_needs_colon(
    inner: Seq<char>,
    line: &str,
    readings: Vec<Option<Double>>,
    r: Result<Option<ImuSample>, String>,
)
    requires
        !inner.contains(','),
        !inner.contains(':'),
        line@ == seq!['{'] + inner + seq!['}', '\n'],
        call_ensures(parse_imu_line, (line, &readings), r),
    ensures
        r is Err,
        r->Err_0@ == "malformed key/value pair: "@ + text::debug_text(inner),
{
    lemma_line_parts();
    reveal_strlit("}\n");
    assert("}\n"@ =~= seq!['}', '\n']);
    lemma_trimmed_line(inner);
    text::lemma_split_first_parts(inner, ',');
    text::lemma_split_first_parts(inner, ':');
    if let Some((a, b)) = text::split_first(inner, ',') {
        assert((a + seq![','] + b)[a.len() as int] == ',');
    }
    if let Some((a, b)) = text::split_first(inner, ':') {
        assert((a + seq![':'] + b)[a.len() as int] == ':');
    }
    assert(pieces(inner) =~= seq![inner]);
    reveal_with_fuel(fields_after, 2);
}

/// Of two entries with the same key the last one counts: an entry behind the others
/// replaces the number of its key, and no other.
pub proof fn law_last_entry_counts(
    keys: Seq<Seq<char>>,
    values: Seq<Seq<char>>,
    line: &str,
    readings: Vec<Option<Double>>,
    s: ImuSample,
    j: int,
    value: Seq<char>,
    number: Double,
    longer: &str,
    more: Vec<Option<Double>>,
    r: Result<Option<ImuSample>, String>,
)
    requires
        keys.len() == values.len() == readings.len(),
        keys.len() >= 1,
        forall|i: int| 0 <= i < keys.len() ==> plain_key(#[trigger] keys[i]),
        forall|i: int| 0 <= i < keys.len() ==> plain(#[trigger] values[i]),
        line@ == object_line(keys, values),
        call_ensures(parse_imu_line, (line, &readings), Ok::<Option<ImuSample>, String>(Some(s))),
        0 <= j < 7,
        plain(value),
        number.finite(),
        longer@ == object_line(
            keys.push(seq!["t"@, "ax"@, "ay"@, "az"@, "gx"@, "gy"@, "gz"@][j]),
            values.push(value),
        ),
        more@ == readings@.push(Some(number)),
        call_ensures(parse_imu_line, (longer, &more), r),
    ensures
        r matches Ok(Some(_)),
        ({
            let before = seq![s.t, s.ax, s.ay, s.az, s.gx, s.gy, s.gz];
            let t = r->Ok_0->0;
            let after = seq![t.t, t.ax, t.ay, t.az, t.gx, t.gy, t.gz];
            forall|m: int|
                0 <= m < 7 ==> #[trigger] after[m] == if m == j {
                    number
                } else {
                    before[m]
                }
        }),
{
    let n = keys.len() as int;
    let key = imu_keys()[j];
    let ks = keys.push(key);
    let vs = values.push(value);
    lemma_imu_keys();
    assert forall|i: int| 0 <= i < ks.len() implies plain_key(#[trigger] ks[i]) by {
        if i < n {
            assert(ks[i] == keys[i]);
        }
    }
    assert forall|i: int| 0 <= i < vs.len() implies plain(#[trigger] vs[i]) by {
        if i < n {
            assert(vs[i] == values[i]);
        }
    }
    lemma_trimmed_line(entries(keys, values, n));
    lemma_trimmed_line(entries(ks, vs, n + 1));
    lemma_pieces(keys, values, n);
    lemma_pieces(ks, vs, n + 1);
    let ps = pieces(entries(keys, values, n));
    let qs = pieces(entries(ks, vs, n + 1));
    assert forall|i: int| 0 <= i < n implies #[trigger] ps[i] == qs[i] by {
        assert(ks[i] == keys[i] && vs[i] == values[i]);
        assert(ps[i] == written_piece(keys, values, i));
        assert(qs[i] == written_piece(ks, vs, i));
    }
    lemma_fields_prefix(ps, qs, readings@, more@, n);
    lemma_written_piece(ks, vs, n);
    assert(qs[n] == written_piece(ks, vs, n));
    lemma_accepted_fields_are_finite(ps, readings@, n);
    let f = fields_after(ps, readings@, n)->Ok_0;
    let g = f.update(j, Some(number));
    assert(fields_after(qs, more@, n + 1) == Ok::<_, Seq<char>>(g));
    reveal_with_fuel(first_missing, 9);
    assert(first_missing(f, 0) is None);
    assert forall|m: int| 0 <= m < 7 implies (#[trigger] f[m]) is Some by {}
    lemma_first_missing(g, 0, 7);
}

proof fn lemma_fields_prefix(
    ps: Seq<Seq<char>>,
    qs: Seq<Seq<char>>,
    numbers: Seq<Option<Double>>,
    more: Seq<Option<Double>>,
    n: int,
)
    requires
        0 <= n <= ps.len(),
        n <= qs.len(),
        n <= numbers.len(),
        n <= more.len(),
        forall|i: int| 0 <= i < n ==> #[trigger] ps[i] == qs[i],
        forall|i: int| 0 <= i < n ==> #[trigger] numbers[i] == more[i],
    ensures
        fields_after(ps, numbers, n) == fields_after(qs, more, n),
    decreases n,
{
    if n > 0 {
        lemma_fields_prefix(ps, qs, numbers, more, n - 1);
        assert(ps[n - 1] == qs[n - 1]);
        assert(numbers[n - 1] == more[n - 1]);
    }
}

} // verus!
