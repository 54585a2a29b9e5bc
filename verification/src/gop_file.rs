//! The text form of a GOP table.
//!
//! Each line holds one GOP as five decimal numbers with commas between them:
//! `gop_number,gop_start_byte,gop_length,gop_time_stamp,gop_duration_time`.

use vstd::prelude::*;

use crate::decimal;
use crate::videogop;
use crate::videogop::{VideoGop, VideoGopCollection};

verus! {

/// The parts of `line` between its commas. There is always one more of them
/// than there are commas.
pub open spec fn fields(line: Seq<char>) -> Seq<Seq<char>>
    decreases line.len(),
{
    if line.len() == 0 {
        seq![Seq::empty()]
    } else {
        let before = fields(line.drop_last());
        if line.last() == ',' {
            before.push(Seq::empty())
        } else {
            before.update(before.len() - 1, before.last().push(line.last()))
        }
    }
}

/// The GOP that `line` describes, if it has five fields. A field that is no
/// number in the range of its type counts as zero.
pub open spec fn parsed_gop(line: Seq<char>) -> Option<VideoGop> {
    let parts = fields(line);
    if parts.len() == 5 {
        Some(
            VideoGop {
                gop_number: decimal::value_or_zero(parts[0], u32::MAX as nat) as u32,
                gop_start_byte: decimal::value_or_zero(parts[1], u64::MAX as nat) as u64,
                gop_length: decimal::value_or_zero(parts[2], u64::MAX as nat) as u64,
                gop_time_stamp: decimal::value_or_zero(parts[3], u128::MAX as nat) as u128,
                gop_duration_time: decimal::value_or_zero(parts[4], u128::MAX as nat) as u128,
            },
        )
    } else {
        None
    }
}

/// The table that `lines` describe. Lines without five fields are passed over,
/// and of several GOPs of the same number the first one counts.
pub open spec fn gop_table(lines: Seq<Seq<char>>) -> Map<u32, VideoGop>
    decreases lines.len(),
{
    if lines.len() == 0 {
        Map::empty()
    } else {
        let before = gop_table(lines.drop_last());
        match parsed_gop(lines.last()) {
            Some(gop) => videogop::with_gop(before, gop),
            None => before,
        }
    }
}

/// The texts of `lines`.
pub open spec fn texts(lines: Seq<String>) -> Seq<Seq<char>> {
    lines.map_values(|line: String| line@)
}

/// The contents of `parts`.
pub open spec fn contents(parts: Seq<Vec<char>>) -> Seq<Seq<char>> {
    parts.map_values(|part: Vec<char>| part@)
}

/// Splits `line` at its commas.
fn split_fields(line: &str) -> (parts: Vec<Vec<char>>)
    ensures
        contents(parts@) == fields(line@),
{
    let mut parts: Vec<Vec<char>> = Vec::new();
    let mut part: Vec<char> = Vec::new();
    proof {
        assert(line@.take(0) =~= Seq::<char>::empty());
        assert(contents(parts@).push(part@) =~= fields(line@.take(0)));
    }
    for c in chars: line.chars()
        invariant
            chars.seq() == line@,
            contents(parts@).push(part@) == fields(line@.take(chars.index())),
    {
        let ghost now = line@.take(chars.index() + 1);
        let ghost before = contents(parts@).push(part@);
        proof {
            assert(now.drop_last() =~= line@.take(chars.index()));
            assert(now.last() == c);
            assert(before.last() == part@);
        }
        if c == ',' {
            parts.push(part);
            part = Vec::new();
            assert(contents(parts@) =~= before);
            assert(contents(parts@).push(part@) =~= fields(now));
        } else {
            part.push(c);
            assert(contents(parts@).push(part@) =~= fields(now));
        }
    }
    assert(line@.take(line@.len() as int) =~= line@);
    let ghost before = contents(parts@).push(part@);
    parts.push(part);
    assert(contents(parts@) =~= before);
    parts
}

/// Reads the GOP that `line` describes. Returns `None` if the line does not
/// have five fields.
pub fn parse_gop(line: &str) -> (gop: Option<VideoGop>)
    ensures
        gop == parsed_gop(line@),
{
    let parts = split_fields(line);
    assert(parts@.len() == contents(parts@).len());
    if parts.len() != 5 {
        return None;
    }
    assert(forall|i: int| 0 <= i < 5 ==> #[trigger] contents(parts@)[i] == parts@[i]@);
    Some(
        VideoGop::new(
            decimal::parse_or_zero(&parts[0], u32::MAX as u128) as u32,
            decimal::parse_or_zero(&parts[1], u64::MAX as u128) as u64,
            decimal::parse_or_zero(&parts[2], u64::MAX as u128) as u64,
            decimal::parse_or_zero(&parts[3], u128::MAX),
            decimal::parse_or_zero(&parts[4], u128::MAX),
        ),
    )
}

/// Returns the path under which a GOP file is opened: `path` without a slash
/// in front.
pub fn relative_path(path: &str) -> (relative: &str)
    ensures
        relative@ == if path@.len() > 0 && path@[0] == '/' {
            path@.skip(1)
        } else {
            path@
        },
        path@ == relative@ || path@ == seq!['/'] + relative@,
{
    let len: usize = path.unicode_len();
    if len > 0 && path.get_char(0) == '/' {
        let relative = path.substring_char(1, len);
        assert(relative@ =~= path@.skip(1));
        assert(path@ =~= seq!['/'] + relative@);
        relative
    } else {
        path
    }
}

impl VideoGopCollection {
    /// Creates the collection that the lines of a GOP file describe.
    pub fn from_lines(lines: &Vec<String>) -> (collection: Self)
        ensures
            collection@ == gop_table(texts(lines@)),
            videogop::indexed_by_number(collection@),
            collection.requested_at() is None,
    {
        let mut collection = VideoGopCollection::new();
        assert(texts(lines@).take(0) =~= Seq::<Seq<char>>::empty());
        for i in 0..lines.len()
            invariant
                collection@ == gop_table(texts(lines@).take(i as int)),
                videogop::indexed_by_number(collection@),
                collection.requested_at() is None,
        {
            proof {
                let now = texts(lines@).take(i + 1);
                assert(now.drop_last() =~= texts(lines@).take(i as int));
                assert(now.last() == lines@[i as int]@);
            }
            if let Some(gop) = parse_gop(lines[i].as_str()) {
                collection.add_gop(gop);
            }
        }
        assert(texts(lines@).take(lines@.len() as int) =~= texts(lines@));
        collection
    }
}

/// The line that has `parts` between its commas.
pub open spec fn joined(parts: Seq<Seq<char>>) -> Seq<char>
    decreases parts.len(),
{
    if parts.len() == 0 {
        Seq::empty()
    } else if parts.len() == 1 {
        parts[0]
    } else {
        joined(parts.drop_last()) + seq![','] + parts.last()
    }
}

/// The line that describes `gop`.
pub open spec fn record(gop: VideoGop) -> Seq<char> {
    joined(
        seq![
            decimal::decimal_digits(gop.gop_number as nat),
            decimal::decimal_digits(gop.gop_start_byte as nat),
            decimal::decimal_digits(gop.gop_length as nat),
            decimal::decimal_digits(gop.gop_time_stamp as nat),
            decimal::decimal_digits(gop.gop_duration_time as nat),
        ],
    )
}

/// The fields of a line hold no comma, and the line is what they give with
/// commas between them.
pub proof fn law_fields_make_up_the_line(line: Seq<char>)
    ensures
        fields(line).len() > 0,
        joined(fields(line)) == line,
        forall|i: int|
            0 <= i < fields(line).len() ==> !(#[trigger] fields(line)[i]).contains(','),
    decreases line.len(),
{
    if line.len() > 0 {
        let front = line.drop_last();
        law_fields_make_up_the_line(front);
        let before = fields(front);
        let after = fields(line);
        if line.last() == ',' {
            assert(after.drop_last() =~= before);
            assert(joined(after) =~= joined(before) + seq![',']);
            assert(line =~= front + seq![',']);
        } else {
            let grown = before.last().push(line.last());
            assert(after.drop_last() =~= before.drop_last());
            assert(after.last() == grown);
            assert(joined(after) =~= joined(before).push(line.last()));
            assert(line =~= front.push(line.last()));
            assert forall|i: int| 0 <= i < after.len() implies !(#[trigger] after[i]).contains(
                ',',
            ) by {
                assert(!before[i].contains(','));
                if i == before.len() - 1 && grown.contains(',') {
                    let k = grown.index_of(',');
                    assert(before.last()[k] == ',');
                }
            }
        }
    }
}

/// A field behind a comma is a field of its own.
proof fn lemma_fields_behind_comma(front: Seq<char>, part: Seq<char>)
    requires
        !part.contains(','),
    ensures
        fields(front + seq![','] + part) == fields(front).push(part),
    decreases part.len(),
{
    let line = front + seq![','] + part;
    if part.len() == 0 {
        assert(part =~= Seq::empty());
        assert(line.drop_last() =~= front);
    } else {
        let shorter = part.drop_last();
        assert(!shorter.contains(',')) by {
            if shorter.contains(',') {
                assert(part[shorter.index_of(',')] == ',');
            }
        }
        lemma_fields_behind_comma(front, shorter);
        assert(line.drop_last() =~= front + seq![','] + shorter);
        assert(line.last() == part.last());
        assert(part[part.len() - 1] != ',');
        assert(shorter.push(part.last()) =~= part);
        assert(fields(line) =~= fields(front).push(part));
    }
}

/// A line without commas is its only field.
proof fn lemma_single_field(part: Seq<char>)
    requires
        !part.contains(','),
    ensures
        fields(part) == seq![part],
    decreases part.len(),
{
    if part.len() > 0 {
        let shorter = part.drop_last();
        assert(!shorter.contains(',')) by {
            if shorter.contains(',') {
                assert(part[shorter.index_of(',')] == ',');
            }
        }
        lemma_single_field(shorter);
        assert(part[part.len() - 1] != ',');
        assert(shorter.push(part.last()) =~= part);
        assert(fields(part) =~= seq![part]);
    } else {
        assert(part =~= Seq::empty());
        assert(fields(part) =~= seq![part]);
    }
}

/// Parts that hold no comma are the fields of the line that they make up.
pub proof fn law_joined_parts_are_the_fields(parts: Seq<Seq<char>>)
    requires
        parts.len() > 0,
        forall|i: int| 0 <= i < parts.len() ==> !(#[trigger] parts[i]).contains(','),
    ensures
        fields(joined(parts)) == parts,
    decreases parts.len(),
{
    if parts.len() == 1 {
        lemma_single_field(parts[0]);
        assert(seq![parts[0]] =~= parts);
    } else {
        let front = parts.drop_last();
        assert forall|i: int| 0 <= i < front.len() implies !(#[trigger] front[i]).contains(',') by {
            assert(front[i] == parts[i]);
        }
        law_joined_parts_are_the_fields(front);
        assert(!parts[parts.len() - 1].contains(','));
        lemma_fields_behind_comma(joined(front), parts.last());
        assert(front.push(parts.last()) =~= parts);
    }
}

/// A GOP that is written down in a line is read back from it.
pub proof fn law_record_is_read_back(gop: VideoGop)
    ensures
        parsed_gop(record(gop)) == Some(gop),
{
    let numbers = seq![
        gop.gop_number as nat,
        gop.gop_start_byte as nat,
        gop.gop_length as nat,
        gop.gop_time_stamp as nat,
        gop.gop_duration_time as nat,
    ];
    let parts = seq![
        decimal::decimal_digits(gop.gop_number as nat),
        decimal::decimal_digits(gop.gop_start_byte as nat),
        decimal::decimal_digits(gop.gop_length as nat),
        decimal::decimal_digits(gop.gop_time_stamp as nat),
        decimal::decimal_digits(gop.gop_duration_time as nat),
    ];
    assert forall|i: int| 0 <= i < parts.len() implies !(#[trigger] parts[i]).contains(',')
        && decimal::decimal_value(parts[i]) == Some(numbers[i]) by {
        decimal::law_decimal_digits_are_read_back(numbers[i]);
        let part = parts[i];
        if part.contains(',') {
            assert(decimal::is_digit(part[part.index_of(',')]));
        }
    }
    law_joined_parts_are_the_fields(parts);
    assert(fields(record(gop)) == parts);
    assert(decimal::decimal_value(parts[0]) == Some(numbers[0]));
    assert(decimal::decimal_value(parts[1]) == Some(numbers[1]));
    assert(decimal::decimal_value(parts[2]) == Some(numbers[2]));
    assert(decimal::decimal_value(parts[3]) == Some(numbers[3]));
    assert(decimal::decimal_value(parts[4]) == Some(numbers[4]));
}

/// Whether `line` describes a GOP of the given number.
pub open spec fn describes(line: Seq<char>, number: u32) -> bool {
    parsed_gop(line) matches Some(gop) && gop.gop_number == number
}

/// A table holds the GOPs of the numbers that its lines describe, and no
/// others. Each stands under its own number.
pub proof fn law_table_holds_what_lines_describe(lines: Seq<Seq<char>>)
    ensures
        forall|number: u32| #[trigger]
            gop_table(lines).contains_key(number) <==> exists|i: int|
                0 <= i < lines.len() && describes(#[trigger] lines[i], number),
        videogop::indexed_by_number(gop_table(lines)),
    decreases lines.len(),
{
    if lines.len() > 0 {
        let front = lines.drop_last();
        law_table_holds_what_lines_describe(front);
        assert forall|number: u32| #[trigger]
            gop_table(lines).contains_key(number) <==> exists|i: int|
                0 <= i < lines.len() && describes(#[trigger] lines[i], number) by {
            if gop_table(front).contains_key(number) {
                let i = choose|i: int|
                    0 <= i < front.len() && describes(#[trigger] front[i], number);
                assert(describes(lines[i], number));
            } else if gop_table(lines).contains_key(number) {
                assert(describes(lines[lines.len() - 1], number));
            }
            if exists|i: int| 0 <= i < lines.len() && describes(#[trigger] lines[i], number) {
                let i = choose|i: int|
                    0 <= i < lines.len() && describes(#[trigger] lines[i], number);
                if i < front.len() {
                    assert(describes(front[i], number));
                }
            }
        }
    }
}

/// Of several lines that describe a GOP of the same number, the first one
/// counts.
pub proof fn law_first_line_counts(lines: Seq<Seq<char>>, i: int)
    requires
        0 <= i < lines.len(),
        parsed_gop(lines[i]) is Some,
        forall|j: int|
            0 <= j < i ==> !describes(#[trigger] lines[j], parsed_gop(lines[i])->0.gop_number),
    ensures
        gop_table(lines).contains_key(parsed_gop(lines[i])->0.gop_number),
        gop_table(lines)[parsed_gop(lines[i])->0.gop_number] == parsed_gop(lines[i])->0,
    decreases lines.len(),
{
    let front = lines.drop_last();
    let number = parsed_gop(lines[i])->0.gop_number;
    if i < front.len() {
        assert forall|j: int| 0 <= j < i implies !describes(#[trigger] front[j], number) by {
            assert(front[j] == lines[j]);
        }
        law_first_line_counts(front, i);
    } else {
        law_table_holds_what_lines_describe(front);
        if gop_table(front).contains_key(number) {
            let j = choose|j: int| 0 <= j < front.len() && describes(#[trigger] front[j], number);
            assert(describes(lines[j], number));
        }
    }
}

/// A line of five parts without commas describes a GOP, and each part gives one
/// of its numbers, in order: the number that the part stands for, or zero if it
/// stands for none or for one out of range.
pub proof fn law_each_part_gives_its_number(
    number: Seq<char>,
    start_byte: Seq<char>,
    length: Seq<char>,
    time_stamp: Seq<char>,
    duration: Seq<char>,
)
    requires
        !number.contains(','),
        !start_byte.contains(','),
        !length.contains(','),
        !time_stamp.contains(','),
        !duration.contains(','),
    ensures
        ({
            let line = number + seq![','] + start_byte + seq![','] + length + seq![',']
                + time_stamp + seq![','] + duration;
            &&& parsed_gop(line) matches Some(gop)
            &&& match decimal::decimal_value(number) {
                Some(value) => gop.gop_number == if value <= u32::MAX {
                    value as int
                } else {
                    0
                },
                None => gop.gop_number == 0,
            }
            &&& match decimal::decimal_value(start_byte) {
                Some(value) => gop.gop_start_byte == if value <= u64::MAX {
                    value as int
                } else {
                    0
                },
                None => gop.gop_start_byte == 0,
            }
            &&& match decimal::decimal_value(length) {
                Some(value) => gop.gop_length == if value <= u64::MAX {
                    value as int
                } else {
                    0
                },
                None => gop.gop_length == 0,
            }
            &&& match decimal::decimal_value(time_stamp) {
                Some(value) => gop.gop_time_stamp == if value <= u128::MAX {
                    value as int
                } else {
                    0
                },
                None => gop.gop_time_stamp == 0,
            }
            &&& match decimal::decimal_value(duration) {
                Some(value) => gop.gop_duration_time == if value <= u128::MAX {
                    value as int
                } else {
                    0
                },
                None => gop.gop_duration_time == 0,
            }
        }),
{
    let two = number + seq![','] + start_byte;
    let three = two + seq![','] + length;
    let four = three + seq![','] + time_stamp;
    lemma_single_field(number);
    lemma_fields_behind_comma(number, start_byte);
    lemma_fields_behind_comma(two, length);
    lemma_fields_behind_comma(three, time_stamp);
    lemma_fields_behind_comma(four, duration);
}

/// A line without commas is its only field.
pub proof fn law_line_without_commas_is_one_field(part: Seq<char>)
    requires
        !part.contains(','),
    ensures
        fields(part) == seq![part],
{
    lemma_single_field(part);
}

/// What follows the last comma of a line is its last field, and the others are
/// those of what stands before that comma.
pub proof fn law_comma_begins_a_field(front: Seq<char>, part: Seq<char>)
    requires
        !part.contains(','),
    ensures
        fields(front + seq![','] + part) == fields(front).push(part),
{
    lemma_fields_behind_comma(front, part);
}

/// A line has one more field than it has commas, and describes a GOP if and only
/// if it has four commas: `at` are the places of its commas, in order.
pub proof fn law_lines_of_four_commas_count(line: Seq<char>) -> (at: Seq<int>)
    ensures
        forall|k: int, l: int| 0 <= k < l < at.len() ==> at[k] < at[l],
        forall|k: int|
            0 <= k < at.len() ==> 0 <= #[trigger] at[k] < line.len() && line[at[k]] == ',',
        forall|i: int| 0 <= i < line.len() && #[trigger] line[i] == ',' ==> at.contains(i),
        fields(line).len() == at.len() + 1,
        parsed_gop(line) is Some <==> at.len() == 4,
    decreases line.len(),
{
    if line.len() == 0 {
        Seq::empty()
    } else {
        let front = line.drop_last();
        let before = law_lines_of_four_commas_count(front);
        let place: int = line.len() - 1;
        let at = if line.last() == ',' {
            before.push(place)
        } else {
            before
        };
        assert forall|k: int| 0 <= k < at.len() implies 0 <= #[trigger] at[k] < line.len()
            && line[at[k]] == ',' by {
            if k < before.len() {
                assert(at[k] == before[k]);
                assert(front[before[k]] == line[at[k]]);
            }
        }
        assert forall|k: int, l: int| 0 <= k < l < at.len() implies at[k] < at[l] by {
            assert(at[k] == before[k]);
        }
        assert forall|i: int| 0 <= i < line.len() && #[trigger] line[i] == ',' implies at.contains(
            i,
        ) by {
            if i < place {
                assert(front[i] == line[i]);
                assert(at[before.index_of(i)] == i);
            } else {
                assert(at[before.len() as int] == i);
            }
        }
        at
    }
}

/// A further line adds its GOP to the table if it describes one and its number
/// is not taken, and changes nothing else.
pub proof fn law_further_line_adds_its_gop(lines: Seq<Seq<char>>, line: Seq<char>)
    ensures
        gop_table(Seq::<Seq<char>>::empty()) == Map::<u32, VideoGop>::empty(),
        parsed_gop(line) is None ==> gop_table(lines.push(line)) == gop_table(lines),
        parsed_gop(line) matches Some(gop) ==> {
            &&& gop_table(lines).contains_key(gop.gop_number) ==> gop_table(lines.push(line))
                == gop_table(lines)
            &&& !gop_table(lines).contains_key(gop.gop_number) ==> gop_table(lines.push(line))
                == gop_table(lines).insert(gop.gop_number, gop)
        },
{
    assert(lines.push(line).drop_last() =~= lines);
}

/// The texts of the lines are those that the lines hold, in order.
pub proof fn law_texts_are_those_of_the_lines(lines: Seq<String>)
    ensures
        texts(lines).len() == lines.len(),
        forall|i: int| 0 <= i < lines.len() ==> #[trigger] texts(lines)[i] == lines[i]@,
{
}

} // verus!
