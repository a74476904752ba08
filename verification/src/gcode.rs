//! The G-code line grammar understood by the plotter and its parser.
//!
//! A line is `G` followed by a digit `0`..`3`, a space, and one to six
//! parameters separated by single spaces. A parameter is one of the keys
//! `X`, `Y`, `R`, `F` directly followed by a number: an optional `-`, one or
//! more digits, and optionally `.` with one or more digits. Anything else,
//! comments included, is not a line of this grammar.

use vstd::prelude::*;

use crate::text::{
    chars_of, covered, join, lemma_join_split, lemma_split_join, lemma_split_pieces, line_ranges,
    lines, ranges_within, split, split_ranges, strip_cr,
};
use crate::Error;

verus! {

pub open spec fn is_digit(c: char) -> bool {
    '0' <= c && c <= '9'
}

/// One or more decimal digits.
pub open spec fn is_digits(s: Seq<char>) -> bool {
    s.len() > 0 && forall|i: int| 0 <= i < s.len() ==> is_digit(#[trigger] s[i])
}

/// Digits, optionally followed by `.` and more digits.
pub open spec fn is_unsigned_number(s: Seq<char>) -> bool {
    ||| is_digits(s)
    ||| exists|k: int|
        0 < k < s.len() && s[k] == '.' && is_digits(#[trigger] s.take(k)) && is_digits(
            s.skip(k + 1),
        )
}

/// An unsigned number, optionally preceded by one `-`.
pub open spec fn is_number(s: Seq<char>) -> bool {
    ||| is_unsigned_number(s)
    ||| s.len() > 0 && s[0] == '-' && is_unsigned_number(s.drop_first())
}

fn is_digit_char(c: char) -> (r: bool)
    ensures
        r == is_digit(c),
{
    c >= '0' && c <= '9'
}

/// Whether `cs[a..b]` is an unsigned number.
fn check_unsigned_number(cs: &Vec<char>, a: usize, b: usize) -> (r: bool)
    requires
        a <= b <= cs.len(),
    ensures
        r == is_unsigned_number(cs@.subrange(a as int, b as int)),
{
    let ghost s = cs@.subrange(a as int, b as int);
    let mut i: usize = a;
    while i < b && is_digit_char(cs[i])
        invariant
            a <= i <= b <= cs.len(),
            forall|k: int| a <= k < i ==> is_digit(#[trigger] cs@[k]),
        decreases b - i,
    {
        i = i + 1;
    }
    if i == b {
        if i == a {
            assert(!is_unsigned_number(s));
            return false;
        }
        assert(is_digits(s));
        return true;
    }
    let ghost d = i - a;
    assert(s[d] == cs@[i as int]);
    assert(!is_digit(s[d]));
    assert(!is_digits(s));
    if i == a || cs[i] != '.' {
        assert forall|k: int|
            0 < k < s.len() && s[k] == '.' && is_digits(#[trigger] s.take(k)) implies !is_digits(
            s.skip(k + 1),
        ) by {
            if k < d {
                assert(is_digit(cs@[a + k]));
            } else if k > d {
                assert(s.take(k)[d] == s[d]);
            }
        }
        return false;
    }
    let mut j: usize = i + 1;
    while j < b && is_digit_char(cs[j])
        invariant
            i < j <= b <= cs.len(),
            forall|k: int| i < k < j ==> is_digit(#[trigger] cs@[k]),
        decreases b - j,
    {
        j = j + 1;
    }
    if j == b && j > i + 1 {
        assert(is_digits(s.take(d))) by {
            assert forall|k: int| 0 <= k < s.take(d).len() implies is_digit(
                #[trigger] s.take(d)[k],
            ) by {
                assert(is_digit(cs@[a + k]));
            }
        }
        assert(is_digits(s.skip(d + 1))) by {
            assert forall|k: int| 0 <= k < s.skip(d + 1).len() implies is_digit(
                #[trigger] s.skip(d + 1)[k],
            ) by {
                assert(is_digit(cs@[i + 1 + k]));
            }
        }
        assert(s[d] == '.');
        true
    } else {
        assert forall|k: int|
            0 < k < s.len() && s[k] == '.' && is_digits(#[trigger] s.take(k)) implies !is_digits(
            s.skip(k + 1),
        ) by {
            if k < d {
                assert(is_digit(cs@[a + k]));
            } else if k > d {
                assert(s.take(k)[d] == s[d]);
            } else if j < b {
                assert(s.skip(k + 1)[j - i - 1] == cs@[j as int]);
            }
        }
        false
    }
}

/// Whether `cs[a..b]` is a number.
fn check_number(cs: &Vec<char>, a: usize, b: usize) -> (r: bool)
    requires
        a <= b <= cs.len(),
    ensures
        r == is_number(cs@.subrange(a as int, b as int)),
{
    let ghost s = cs@.subrange(a as int, b as int);
    if a < b && cs[a] == '-' {
        assert(!is_digit(s[0]));
        assert forall|k: int|
            0 < k < s.len() && s[k] == '.' && is_digits(#[trigger] s.take(k)) implies !is_digits(
            s.skip(k + 1),
        ) by {
            assert(s.take(k)[0] == s[0]);
        }
        assert(s.drop_first() =~= cs@.subrange(a + 1, b as int));
        check_unsigned_number(cs, a + 1, b)
    } else {
        check_unsigned_number(cs, a, b)
    }
}

/// The keys a parameter may have.
pub open spec fn is_param_key(c: char) -> bool {
    c == 'X' || c == 'Y' || c == 'R' || c == 'F'
}

/// A parameter: a key directly followed by a number.
pub open spec fn is_param(t: Seq<char>) -> bool {
    t.len() >= 1 && is_param_key(t[0]) && is_number(t.drop_first())
}

/// Whether `cs[a..b]` is a parameter.
fn check_param(cs: &Vec<char>, a: usize, b: usize) -> (r: bool)
    requires
        a <= b <= cs.len(),
    ensures
        r == is_param(cs@.subrange(a as int, b as int)),
{
    if a < b {
        let k = cs[a];
        assert(cs@.subrange(a as int, b as int).drop_first() =~= cs@.subrange(a + 1, b as int));
        (k == 'X' || k == 'Y' || k == 'R' || k == 'F') && check_number(cs, a + 1, b)
    } else {
        false
    }
}

/// The motion a line asks for, after its `G` number.
#[derive(Debug, Clone, Copy, PartialEq, Eq, Structural)]
pub enum Code {
    /// `G0`: move to a point with the pen raised.
    MoveRapid,
    /// `G1`: draw a straight line to a point.
    Move,
    /// `G3`: draw a counter-clockwise arc to a point.
    ArcPos,
    /// `G2`: draw a clockwise arc to a point.
    ArcNeg,
}

/// The code that the digit after `G` selects.
pub open spec fn code_of_digit(c: char) -> Code {
    if c == '0' {
        Code::MoveRapid
    } else if c == '1' {
        Code::Move
    } else if c == '2' {
        Code::ArcNeg
    } else {
        Code::ArcPos
    }
}

/// One parameter of a line: its key and the text of its number.
#[derive(Debug)]
pub struct Param {
    pub key: char,
    pub value: String,
}

impl View for Param {
    type V = (char, Seq<char>);

    open spec fn view(&self) -> (char, Seq<char>) {
        (self.key, self.value@)
    }
}

/// A parsed line: its code and its parameters in the order they were written.
#[derive(Debug)]
pub struct Instruction {
    pub code: Code,
    pub params: Vec<Param>,
}

impl View for Instruction {
    type V = (Code, Seq<(char, Seq<char>)>);

    open spec fn view(&self) -> (Code, Seq<(char, Seq<char>)>) {
        (self.code, self.params@.map_values(|p: Param| p@))
    }
}

/// `G`, a digit `0`..`3`, and a space.
pub open spec fn has_code_prefix(l: Seq<char>) -> bool {
    &&& l.len() >= 3
    &&& l[0] == 'G'
    &&& '0' <= l[1] && l[1] <= '3'
    &&& l[2] == ' '
}

/// The space-separated words after the code prefix.
pub open spec fn param_words(l: Seq<char>) -> Seq<Seq<char>> {
    split(l.skip(3), ' ')
}

/// Whether `l` is a line of the grammar.
pub open spec fn is_gcode_line(l: Seq<char>) -> bool {
    &&& has_code_prefix(l)
    &&& param_words(l).len() <= 6
    &&& forall|i: int| 0 <= i < param_words(l).len() ==> is_param(#[trigger] param_words(l)[i])
}

/// The key and number text of a parameter word.
pub open spec fn word_param(t: Seq<char>) -> (char, Seq<char>) {
    (t[0], t.drop_first())
}

/// What a line of the grammar says: its code and its parameters in order.
pub open spec fn line_instruction(l: Seq<char>) -> (Code, Seq<(char, Seq<char>)>) {
    (code_of_digit(l[1]), param_words(l).map_values(|t: Seq<char>| word_param(t)))
}

/// A copy of `cs[a..b]`.
fn copy_range(cs: &Vec<char>, a: usize, b: usize) -> (r: Vec<char>)
    requires
        a <= b <= cs.len(),
    ensures
        r@ == cs@.subrange(a as int, b as int),
{
    let mut r: Vec<char> = Vec::new();
    let mut i: usize = a;
    while i < b
        invariant
            a <= i <= b <= cs.len(),
            r@ == cs@.subrange(a as int, i as int),
        decreases b - i,
    {
        r.push(cs[i]);
        i = i + 1;
        assert(r@ =~= cs@.subrange(a as int, i as int));
    }
    r
}

/// `String::from_iter` over characters: the string made of `cs`, in order.
#[verifier::external_body]
fn string_from_chars(cs: Vec<char>) -> (s: String)
    ensures
        s@ == cs@,
{
    String::from_iter(cs)
}

/// Parses `cs[start..end]` as a line of the grammar.
pub fn parse_chars(cs: &Vec<char>, start: usize, end: usize) -> (r: Option<Instruction>)
    requires
        start <= end <= cs.len(),
    ensures
        r is Some <==> is_gcode_line(cs@.subrange(start as int, end as int)),
        r matches Some(ins) ==> ins@ == line_instruction(cs@.subrange(start as int, end as int)),
{
    let ghost l = cs@.subrange(start as int, end as int);
    if end - start < 3 {
        return None;
    }
    let c0 = cs[start];
    let c1 = cs[start + 1];
    let c2 = cs[start + 2];
    if c0 != 'G' || c1 < '0' || c1 > '3' || c2 != ' ' {
        return None;
    }
    let code = if c1 == '0' {
        Code::MoveRapid
    } else if c1 == '1' {
        Code::Move
    } else if c1 == '2' {
        Code::ArcNeg
    } else {
        Code::ArcPos
    };
    let words = split_ranges(cs, start + 3, end, ' ');
    assert(l.skip(3) =~= cs@.subrange(start + 3, end as int));
    assert(covered(cs@, words@) == param_words(l));
    if words.len() > 6 {
        return None;
    }
    let mut params: Vec<Param> = Vec::new();
    let mut i: usize = 0;
    while i < words.len()
        invariant
            i <= words.len() <= 6,
            start + 3 <= end <= cs.len(),
            l == cs@.subrange(start as int, end as int),
            covered(cs@, words@) == param_words(l),
            ranges_within(words@, start + 3, end as int),
            forall|k: int| 0 <= k < i ==> is_param(#[trigger] param_words(l)[k]),
            params@.map_values(|p: Param| p@) == param_words(l).take(i as int).map_values(
                |t: Seq<char>| word_param(t),
            ),
        decreases words.len() - i,
    {
        let (a, b) = words[i];
        assert(covered(cs@, words@)[i as int] == cs@.subrange(a as int, b as int));
        if !check_param(cs, a, b) {
            return None;
        }
        let key = cs[a];
        let value = string_from_chars(copy_range(cs, a + 1, b));
        let ghost before = params@;
        params.push(Param { key, value });
        proof {
            let t = param_words(l)[i as int];
            assert(t.drop_first() =~= cs@.subrange(a + 1, b as int));
            assert(params@.map_values(|p: Param| p@) =~= before.map_values(|p: Param| p@).push(
                word_param(t),
            ));
            assert(param_words(l).take(i + 1) =~= param_words(l).take(i as int).push(t));
        }
        i = i + 1;
        assert(params@.map_values(|p: Param| p@) =~= param_words(l).take(i as int).map_values(
            |t: Seq<char>| word_param(t),
        ));
    }
    assert(param_words(l).take(i as int) =~= param_words(l));
    Some(Instruction { code, params })
}

/// Whether a line is meant for the parser: exactly the lines that the parser
/// accepts pass, so filtering never lets through a line that it refuses and
/// never drops one that it accepts.
pub fn line_filter(line: &str) -> (r: bool)
    ensures
        r == is_gcode_line(line@),
{
    let cs = chars_of(line);
    assert(cs@.subrange(0, cs.len() as int) =~= cs@);
    parse_chars(&cs, 0, cs.len()).is_some()
}

/// Parses one line of the grammar; any other text is refused with
/// `Error::UnexpectedGcode`.
pub fn parse_line(line: &str) -> (r: Result<Instruction, Error>)
    ensures
        r is Ok <==> is_gcode_line(line@),
        r matches Ok(ins) ==> ins@ == line_instruction(line@),
        r matches Err(e) ==> e is UnexpectedGcode,
{
    let cs = chars_of(line);
    assert(cs@.subrange(0, cs.len() as int) =~= cs@);
    match parse_chars(&cs, 0, cs.len()) {
        Some(ins) => Ok(ins),
        None => Err(Error::UnexpectedGcode),
    }
}

/// Pen travel, in motor steps, to lift the pen off the paper before a rapid move.
pub const PEN_UP: i32 = 3000;

/// Pen travel, in motor steps, to put the pen back on the paper after a rapid move.
pub const PEN_DOWN: i32 = -3000;

/// Pen travel, in motor steps, to lift the pen at the end of a drawing.
pub const PEN_PARK: i32 = 5000;

/// Turning direction of an arc.
#[derive(Debug, Clone, Copy, PartialEq, Eq, Structural)]
pub enum ArcDir {
    /// Counter-clockwise (`G3`).
    Pos,
    /// Clockwise (`G2`).
    Neg,
}

/// One movement of the plotter. Targets are absolute positions in millimetres,
/// given as the text of the number that the G-code line holds; an absent
/// target stands for `0`.
#[derive(Debug)]
pub enum Step {
    /// Move the pen up (positive) or down (negative) by `dz` motor steps,
    /// without moving on the paper.
    Pen { dz: i32 },
    /// Straight move to `(x, y)`; a rapid move travels with the pen raised at
    /// the rapid acceleration and velocity, the others draw at the configured
    /// ones.
    Line { x: Option<String>, y: Option<String>, rapid: bool },
    /// Arc to `(x, y)` with radius `r`, turning in direction `dir`.
    Arc { x: Option<String>, y: Option<String>, r: Option<String>, dir: ArcDir },
}

/// What a `Step` stands for, with its texts as character sequences.
pub enum StepModel {
    Pen { dz: int },
    Line { x: Option<Seq<char>>, y: Option<Seq<char>>, rapid: bool },
    Arc { x: Option<Seq<char>>, y: Option<Seq<char>>, r: Option<Seq<char>>, dir: ArcDir },
}

/// The characters of an optional text.
pub open spec fn text_of(o: Option<String>) -> Option<Seq<char>> {
    match o {
        Some(s) => Some(s@),
        None => None,
    }
}

impl View for Step {
    type V = StepModel;

    open spec fn view(&self) -> StepModel {
        match self {
            Step::Pen { dz } => StepModel::Pen { dz: *dz as int },
            Step::Line { x, y, rapid } => StepModel::Line { x: text_of(*x), y: text_of(*y), rapid: *rapid },
            Step::Arc { x, y, r, dir } => StepModel::Arc {
                x: text_of(*x),
                y: text_of(*y),
                r: text_of(*r),
                dir: *dir,
            },
        }
    }
}

/// The number given last for `key` among `params`, if any: a later parameter
/// overrides an earlier one with the same key.
pub open spec fn last_value(params: Seq<(char, Seq<char>)>, key: char) -> Option<Seq<char>>
    decreases params.len(),
{
    if params.len() == 0 {
        None
    } else if params.last().0 == key {
        Some(params.last().1)
    } else {
        last_value(params.drop_last(), key)
    }
}

/// The movement that an instruction asks for. `F` is accepted and ignored,
/// and so is `R` on straight moves.
pub open spec fn motion_of(ins: (Code, Seq<(char, Seq<char>)>)) -> StepModel {
    let x = last_value(ins.1, 'X');
    let y = last_value(ins.1, 'Y');
    match ins.0 {
        Code::MoveRapid => StepModel::Line { x, y, rapid: true },
        Code::Move => StepModel::Line { x, y, rapid: false },
        Code::ArcPos => StepModel::Arc { x, y, r: last_value(ins.1, 'R'), dir: ArcDir::Pos },
        Code::ArcNeg => StepModel::Arc { x, y, r: last_value(ins.1, 'R'), dir: ArcDir::Neg },
    }
}

/// The steps for one instruction: a rapid move is framed by lifting the pen
/// before it and lowering it after it.
pub open spec fn instruction_steps(ins: (Code, Seq<(char, Seq<char>)>)) -> Seq<StepModel> {
    if ins.0 == Code::MoveRapid {
        seq![StepModel::Pen { dz: PEN_UP as int }, motion_of(ins), StepModel::Pen { dz: PEN_DOWN as int }]
    } else {
        seq![motion_of(ins)]
    }
}

/// The movement that `ins` asks for.
pub fn to_command(ins: &Instruction) -> (s: Step)
    ensures
        s@ == motion_of(ins@),
{
    let ghost ps = ins@.1;
    let mut x: Option<String> = None;
    let mut y: Option<String> = None;
    let mut r: Option<String> = None;
    let mut i: usize = 0;
    while i < ins.params.len()
        invariant
            i <= ins.params.len(),
            ps == ins.params@.map_values(|p: Param| p@),
            text_of(x) == last_value(ps.take(i as int), 'X'),
            text_of(y) == last_value(ps.take(i as int), 'Y'),
            text_of(r) == last_value(ps.take(i as int), 'R'),
        decreases ins.params.len() - i,
    {
        let p = &ins.params[i];
        assert(ps.take(i + 1).drop_last() =~= ps.take(i as int));
        assert(ps.take(i + 1).last() == p@);
        if p.key == 'X' {
            x = Some(p.value.clone());
        } else if p.key == 'Y' {
            y = Some(p.value.clone());
        } else if p.key == 'R' {
            r = Some(p.value.clone());
        }
        i = i + 1;
    }
    assert(ps.take(i as int) =~= ps);
    match ins.code {
        Code::MoveRapid => Step::Line { x, y, rapid: true },
        Code::Move => Step::Line { x, y, rapid: false },
        Code::ArcPos => Step::Arc { x, y, r, dir: ArcDir::Pos },
        Code::ArcNeg => Step::Arc { x, y, r, dir: ArcDir::Neg },
    }
}

/// Planning of `ls`, line by line: lines that do not pass the line filter are
/// skipped, and every other line adds its instruction's steps.
pub open spec fn plan_lines(ls: Seq<Seq<char>>) -> Seq<StepModel>
    decreases ls.len(),
{
    if ls.len() == 0 {
        Seq::empty()
    } else {
        let p = plan_lines(ls.drop_last());
        let l = ls.last();
        if is_gcode_line(l) {
            p + instruction_steps(line_instruction(l))
        } else {
            p
        }
    }
}

/// Planning of a whole document: the planning of its lines, followed by
/// parking the pen.
pub open spec fn plan_document(doc: Seq<char>) -> Seq<StepModel> {
    plan_lines(lines(doc)).push(StepModel::Pen { dz: PEN_PARK as int })
}

/// Plans the movements that a G-code document asks for.
pub fn to_sequence(gcode_doc: &str) -> (steps: Vec<Step>)
    ensures
        steps@.map_values(|s: Step| s@) == plan_document(gcode_doc@),
{
    let cs = chars_of(gcode_doc);
    let ranges = line_ranges(&cs);
    let ghost ls = lines(cs@);
    let mut steps: Vec<Step> = Vec::new();
    let mut i: usize = 0;
    assert(ls.take(0) =~= Seq::<Seq<char>>::empty());
    assert(steps@.map_values(|s: Step| s@) =~= Seq::<StepModel>::empty());
    while i < ranges.len()
        invariant
            i <= ranges.len(),
            covered(cs@, ranges@) == ls,
            ranges_within(ranges@, 0, cs.len() as int),
            steps@.map_values(|s: Step| s@) == plan_lines(ls.take(i as int)),
        decreases ranges.len() - i,
    {
        let (a, b) = ranges[i];
        let ghost before = steps@.map_values(|s: Step| s@);
        let ghost l = cs@.subrange(a as int, b as int);
        assert(ls[i as int] == l);
        assert(ls.take(i + 1).drop_last() =~= ls.take(i as int));
        assert(ls.take(i + 1).last() == l);
        if let Some(ins) = parse_chars(&cs, a, b) {
            let rapid = ins.code == Code::MoveRapid;
            if rapid {
                steps.push(Step::Pen { dz: PEN_UP });
            }
            steps.push(to_command(&ins));
            if rapid {
                steps.push(Step::Pen { dz: PEN_DOWN });
            }
            assert(steps@.map_values(|s: Step| s@) =~= before + instruction_steps(ins@));
        }
        i = i + 1;
    }
    assert(ls.take(i as int) =~= ls);
    let ghost before = steps@.map_values(|s: Step| s@);
    steps.push(Step::Pen { dz: PEN_PARK });
    assert(steps@.map_values(|s: Step| s@) =~= before.push(StepModel::Pen { dz: PEN_PARK as int }));
    steps
}

/// The digit after `G` that selects `c`.
pub open spec fn code_digit(c: Code) -> char {
    match c {
        Code::MoveRapid => '0',
        Code::Move => '1',
        Code::ArcNeg => '2',
        Code::ArcPos => '3',
    }
}

/// The word of a parameter: its key followed by its number.
pub open spec fn param_word(p: (char, Seq<char>)) -> Seq<char> {
    seq![p.0] + p.1
}

/// The line that writes an instruction: `G`, its digit, a space, and its
/// parameters' words separated by single spaces.
pub open spec fn render_line(ins: (Code, Seq<(char, Seq<char>)>)) -> Seq<char> {
    seq!['G', code_digit(ins.0), ' '] + join(ins.1.map_values(|p: (char, Seq<char>)| param_word(p)), ' ')
}

/// An instruction that a line can hold: one to six parameters, each with a
/// key of the grammar and a number.
pub open spec fn is_line_instruction(ins: (Code, Seq<(char, Seq<char>)>)) -> bool {
    &&& 1 <= ins.1.len() <= 6
    &&& forall|i: int|
        0 <= i < ins.1.len() ==> is_param_key((#[trigger] ins.1[i]).0) && is_number(ins.1[i].1)
}

/// Law: the instruction parsed from a line of the grammar is one that a line
/// can hold, and writing it out gives back the line, character for character.
pub proof fn lemma_parse_then_render(l: Seq<char>)
    requires
        is_gcode_line(l),
    ensures
        is_line_instruction(line_instruction(l)),
        render_line(line_instruction(l)) == l,
{
    let ins = line_instruction(l);
    let words = param_words(l);
    lemma_split_pieces(l.skip(3), ' ');
    lemma_join_split(l.skip(3), ' ');
    assert forall|i: int| 0 <= i < ins.1.len() implies is_param_key((#[trigger] ins.1[i]).0)
        && is_number(ins.1[i].1) by {
        assert(is_param(words[i]));
    }
    let rewritten = ins.1.map_values(|p: (char, Seq<char>)| param_word(p));
    assert forall|i: int| 0 <= i < words.len() implies #[trigger] rewritten[i] == words[i] by {
        assert(is_param(words[i]));
        assert(param_word(word_param(words[i])) =~= words[i]);
    }
    assert(rewritten =~= words);
    assert(code_digit(code_of_digit(l[1])) == l[1]);
    assert(seq!['G', code_digit(ins.0), ' '] + l.skip(3) =~= l);
}

/// Law: a line written from an instruction that a line can hold is a line of
/// the grammar, and parsing it gives back the instruction.
pub proof fn lemma_render_then_parse(ins: (Code, Seq<(char, Seq<char>)>))
    requires
        is_line_instruction(ins),
    ensures
        is_gcode_line(render_line(ins)),
        line_instruction(render_line(ins)) == ins,
{
    let l = render_line(ins);
    let words = ins.1.map_values(|p: (char, Seq<char>)| param_word(p));
    assert(l.skip(3) =~= join(words, ' '));
    assert forall|i: int, k: int| 0 <= i < words.len() && 0 <= k < words[i].len() implies words[i][k]
        != ' ' by {
        let p = ins.1[i];
        assert(is_param_key(p.0) && is_number(p.1));
        lemma_number_chars(p.1);
        if k > 0 {
            assert(words[i][k] == p.1[k - 1]);
        }
    }
    lemma_split_join(words, ' ');
    assert(param_words(l) == words);
    assert forall|i: int| 0 <= i < param_words(l).len() implies is_param(
        #[trigger] param_words(l)[i],
    ) by {
        let p = ins.1[i];
        assert(is_param_key(p.0) && is_number(p.1));
        assert(words[i].drop_first() =~= p.1);
    }
    assert forall|i: int| 0 <= i < ins.1.len() implies #[trigger] line_instruction(l).1[i]
        == ins.1[i] by {
        assert(words[i].drop_first() =~= ins.1[i].1);
    }
    assert(line_instruction(l).1 =~= ins.1);
}

/// Net vertical pen travel of a sequence of steps, in motor steps.
pub open spec fn pen_travel(steps: Seq<StepModel>) -> int
    decreases steps.len(),
{
    if steps.len() == 0 {
        0
    } else {
        pen_travel(steps.drop_last()) + match steps.last() {
            StepModel::Pen { dz } => dz,
            _ => 0,
        }
    }
}

proof fn lemma_pen_travel_append(a: Seq<StepModel>, b: Seq<StepModel>)
    ensures
        pen_travel(a + b) == pen_travel(a) + pen_travel(b),
    decreases b.len(),
{
    if b.len() == 0 {
        assert(a + b =~= a);
    } else {
        lemma_pen_travel_append(a, b.drop_last());
        assert((a + b).drop_last() =~= a + b.drop_last());
    }
}

/// The steps of every instruction leave the pen where they found it.
proof fn lemma_instruction_pen_travel(ins: (Code, Seq<(char, Seq<char>)>))
    ensures
        pen_travel(instruction_steps(ins)) == 0,
{
    reveal_with_fuel(pen_travel, 4);
    let st = instruction_steps(ins);
    if ins.0 == Code::MoveRapid {
        assert(st.drop_last().drop_last().drop_last() =~= Seq::<StepModel>::empty());
        assert(pen_travel(st.drop_last().drop_last()) == PEN_UP as int);
        assert(pen_travel(st.drop_last()) == PEN_UP as int);
    } else {
        assert(st.drop_last() =~= Seq::<StepModel>::empty());
    }
}

proof fn lemma_plan_lines_pen_travel(ls: Seq<Seq<char>>)
    ensures
        pen_travel(plan_lines(ls)) == 0,
    decreases ls.len(),
{
    if ls.len() > 0 {
        lemma_plan_lines_pen_travel(ls.drop_last());
        let l = ls.last();
        if is_gcode_line(l) {
            lemma_pen_travel_append(plan_lines(ls.drop_last()), instruction_steps(line_instruction(l)));
            lemma_instruction_pen_travel(line_instruction(l));
        }
    }
}

/// Law: every rapid move lifts the pen before and lowers it after by the same
/// amount, so a plan moves the pen up by exactly the parking travel in total.
pub proof fn lemma_plan_pen_balance(doc: Seq<char>)
    ensures
        pen_travel(plan_document(doc)) == PEN_PARK as int,
{
    let p = plan_lines(lines(doc));
    lemma_plan_lines_pen_travel(lines(doc));
    assert(p.push(StepModel::Pen { dz: PEN_PARK as int }).drop_last() =~= p);
}

/// The lines of `ls` that pass the line filter, in order.
pub open spec fn motion_lines(ls: Seq<Seq<char>>) -> Seq<Seq<char>> {
    ls.filter(|l: Seq<char>| is_gcode_line(l))
}

/// Planning only looks at the lines that pass the filter.
proof fn lemma_plan_lines_filtered(ls: Seq<Seq<char>>)
    ensures
        plan_lines(motion_lines(ls)) == plan_lines(ls),
    decreases ls.len(),
{
    reveal(Seq::filter);
    if ls.len() > 0 {
        lemma_plan_lines_filtered(ls.drop_last());
        let f = motion_lines(ls.drop_last());
        if is_gcode_line(ls.last()) {
            assert(motion_lines(ls) == f.push(ls.last()));
            assert(f.push(ls.last()).drop_last() =~= f);
        } else {
            assert(motion_lines(ls) == f);
        }
    }
}

/// Every character of a number is a digit, `-` or `.`.
proof fn lemma_number_chars(s: Seq<char>)
    requires
        is_number(s),
    ensures
        forall|i: int| 0 <= i < s.len() ==> is_digit(#[trigger] s[i]) || s[i] == '-' || s[i] == '.',
{
    assert forall|i: int| 0 <= i < s.len() implies is_digit(#[trigger] s[i]) || s[i] == '-' || s[i] == '.' by {
        let u = if is_unsigned_number(s) { s } else { s.drop_first() };
        let j = if is_unsigned_number(s) { i } else { i - 1 };
        if j >= 0 {
            assert(u[j] == s[i]);
            if !is_digits(u) {
                let k = choose|k: int|
                    0 < k < u.len() && u[k] == '.' && is_digits(#[trigger] u.take(k)) && is_digits(
                        u.skip(k + 1),
                    );
                if j < k {
                    assert(u.take(k)[j] == u[j]);
                } else if j > k {
                    assert(u.skip(k + 1)[j - k - 1] == u[j]);
                }
            }
        }
    }
}

/// Every character of a joined text is the separator or a character of one
/// of the words.
proof fn lemma_join_chars(ws: Seq<Seq<char>>, sep: char, bad: char)
    requires
        sep != bad,
        forall|i: int, k: int| 0 <= i < ws.len() && 0 <= k < ws[i].len() ==> ws[i][k] != bad,
    ensures
        forall|k: int| 0 <= k < join(ws, sep).len() ==> join(ws, sep)[k] != bad,
    decreases ws.len(),
{
    if ws.len() > 1 {
        let rest = ws.drop_last();
        lemma_join_chars(rest, sep, bad);
        let j = join(rest, sep).push(sep);
        let w = ws.last();
        assert forall|k: int| 0 <= k < join(ws, sep).len() implies join(ws, sep)[k] != bad by {
            if k >= j.len() {
                assert(join(ws, sep)[k] == w[k - j.len()]);
                assert(ws[ws.len() - 1][k - j.len()] != bad);
            } else if k < j.len() - 1 {
                assert(join(ws, sep)[k] == join(rest, sep)[k]);
            }
        }
    } else if ws.len() == 1 {
        assert forall|k: int| 0 <= k < join(ws, sep).len() implies join(ws, sep)[k] != bad by {
            assert(ws[0][k] != bad);
        }
    }
}

/// A line of the grammar is not empty and holds neither `\n` nor `\r`.
proof fn lemma_gcode_line_chars(l: Seq<char>)
    requires
        is_gcode_line(l),
    ensures
        l.len() > 0,
        forall|i: int| 0 <= i < l.len() ==> l[i] != '\n' && l[i] != '\r',
{
    let words = param_words(l);
    lemma_join_split(l.skip(3), ' ');
    assert forall|i: int, k: int| 0 <= i < words.len() && 0 <= k < words[i].len() implies words[i][k]
        != '\n' && words[i][k] != '\r' by {
        assert(is_param(words[i]));
        if k > 0 {
            lemma_number_chars(words[i].drop_first());
            assert(words[i][k] == words[i].drop_first()[k - 1]);
        }
    }
    lemma_join_chars(words, ' ', '\n');
    lemma_join_chars(words, ' ', '\r');
    assert forall|i: int| 0 <= i < l.len() implies l[i] != '\n' && l[i] != '\r' by {
        if i >= 3 {
            assert(l[i] == l.skip(3)[i - 3]);
        }
    }
}

/// Writing lines of the grammar one per line gives back the same lines.
proof fn lemma_lines_of_joined(ws: Seq<Seq<char>>)
    requires
        forall|i: int| 0 <= i < ws.len() ==> is_gcode_line(#[trigger] ws[i]),
    ensures
        lines(join(ws, '\n')) == ws,
{
    if ws.len() == 0 {
        assert(split(Seq::<char>::empty(), '\n') =~= seq![Seq::<char>::empty()]);
        assert(lines(join(ws, '\n')) =~= ws);
    } else {
        assert forall|i: int, k: int| 0 <= i < ws.len() && 0 <= k < ws[i].len() implies ws[i][k]
            != '\n' by {
            lemma_gcode_line_chars(ws[i]);
        }
        lemma_split_join(ws, '\n');
        let s = join(ws, '\n');
        let w = ws.last();
        lemma_gcode_line_chars(w);
        if ws.len() == 1 {
            assert(s == w);
        } else {
            let j = join(ws.drop_last(), '\n').push('\n');
            assert(s == j + w);
            assert(s.last() == w.last());
        }
        assert(s.len() > 0 && s.last() != '\n');
        assert forall|i: int| 0 <= i < ws.len() - 1 implies strip_cr(#[trigger] ws[i]) == ws[i] by {
            lemma_gcode_line_chars(ws[i]);
        }
        assert(lines(s) =~= ws);
    }
}

/// Law: planning ignores every line that does not pass the line filter: the
/// document made of only the lines that pass it, one per line, is planned
/// into the same steps.
pub proof fn lemma_plan_ignores_other_lines(doc: Seq<char>)
    ensures
        plan_document(join(motion_lines(lines(doc)), '\n')) == plan_document(doc),
{
    let m = motion_lines(lines(doc));
    assert forall|i: int| 0 <= i < m.len() implies is_gcode_line(#[trigger] m[i]) by {
        lines(doc).lemma_filter_pred(|l: Seq<char>| is_gcode_line(l), i);
    }
    lemma_lines_of_joined(m);
    lemma_plan_lines_filtered(lines(doc));
}

/// `v` is what `key` was given last among `ps`: absent when no parameter has
/// that key, and otherwise the number of a parameter with that key after which
/// no other parameter has it.
pub open spec fn is_last_given(ps: Seq<(char, Seq<char>)>, key: char, v: Option<Seq<char>>) -> bool {
    match v {
        None => forall|i: int| 0 <= i < ps.len() ==> (#[trigger] ps[i]).0 != key,
        Some(t) => exists|i: int|
            0 <= i < ps.len() && #[trigger] ps[i] == (key, t) && forall|j: int|
                i < j < ps.len() ==> (#[trigger] ps[j]).0 != key,
    }
}

proof fn lemma_last_value_is_last_given(ps: Seq<(char, Seq<char>)>, key: char)
    ensures
        is_last_given(ps, key, last_value(ps, key)),
    decreases ps.len(),
{
    if ps.len() > 0 {
        let prev = ps.drop_last();
        lemma_last_value_is_last_given(prev, key);
        if ps.last().0 == key {
            assert(ps[ps.len() - 1] == (key, ps.last().1));
        } else {
            match last_value(prev, key) {
                None => {
                    assert forall|i: int| 0 <= i < ps.len() implies (#[trigger] ps[i]).0 != key by {
                        if i < prev.len() {
                            assert(prev[i] == ps[i]);
                        }
                    }
                },
                Some(t) => {
                    let i = choose|i: int|
                        0 <= i < prev.len() && #[trigger] prev[i] == (key, t) && forall|j: int|
                            i < j < prev.len() ==> (#[trigger] prev[j]).0 != key;
                    assert(ps[i] == prev[i]);
                    assert forall|j: int| i < j < ps.len() implies (#[trigger] ps[j]).0 != key by {
                        if j < prev.len() {
                            assert(prev[j] == ps[j]);
                        }
                    }
                },
            }
        }
    }
}

/// Law: the movement of an instruction goes to the X and Y given last among its
/// parameters, each absent only when the instruction has no parameter with
/// that key, whatever the code; `G0` and `G1` are straight moves, rapid only
/// for `G0`; `G2` and `G3` are arcs with the radius `R` given last, clockwise
/// (`Neg`) for `G2` and counter-clockwise (`Pos`) for `G3`.
pub proof fn lemma_motion_targets(ins: (Code, Seq<(char, Seq<char>)>))
    ensures
        (match motion_of(ins) {
            StepModel::Line { x, y, rapid } => {
                &&& ins.0 == Code::MoveRapid || ins.0 == Code::Move
                &&& rapid <==> ins.0 == Code::MoveRapid
                &&& is_last_given(ins.1, 'X', x)
                &&& is_last_given(ins.1, 'Y', y)
            },
            StepModel::Arc { x, y, r, dir } => {
                &&& ins.0 == Code::ArcNeg || ins.0 == Code::ArcPos
                &&& (dir == ArcDir::Neg <==> ins.0 == Code::ArcNeg)
                &&& is_last_given(ins.1, 'X', x)
                &&& is_last_given(ins.1, 'Y', y)
                &&& is_last_given(ins.1, 'R', r)
            },
            StepModel::Pen { .. } => false,
        }),
{
    lemma_last_value_is_last_given(ins.1, 'X');
    lemma_last_value_is_last_given(ins.1, 'Y');
    lemma_last_value_is_last_given(ins.1, 'R');
}

/// Law: the digit after `G` decides the movement: `0` a rapid straight move,
/// `1` a drawn straight move, `2` a clockwise arc, `3` a counter-clockwise
/// arc.
pub proof fn lemma_digit_decides_motion(l: Seq<char>)
    requires
        is_gcode_line(l),
    ensures
        l[1] == '0' ==> (motion_of(line_instruction(l)) matches StepModel::Line { rapid, .. } && rapid),
        l[1] == '1' ==> (motion_of(line_instruction(l)) matches StepModel::Line { rapid, .. } && !rapid),
        l[1] == '2' ==> (motion_of(line_instruction(l)) matches StepModel::Arc { dir, .. } && dir == ArcDir::Neg),
        l[1] == '3' ==> (motion_of(line_instruction(l)) matches StepModel::Arc { dir, .. } && dir == ArcDir::Pos),
{
}

/// Law: planning one more line adds nothing when the line does not pass the
/// filter; otherwise it adds that line's movement, framed by a 3000-step pen
/// lift before and a 3000-step pen descent after when the line is a `G0`.
pub proof fn lemma_plan_line_steps(ls: Seq<Seq<char>>, l: Seq<char>)
    ensures
        !is_gcode_line(l) ==> plan_lines(ls.push(l)) == plan_lines(ls),
        is_gcode_line(l) && l[1] == '0' ==> plan_lines(ls.push(l)) == plan_lines(ls) + seq![
            StepModel::Pen { dz: 3000 },
            motion_of(line_instruction(l)),
            StepModel::Pen { dz: -3000 },
        ],
        is_gcode_line(l) && l[1] != '0' ==> plan_lines(ls.push(l)) == plan_lines(ls) + seq![
            motion_of(line_instruction(l)),
        ],
{
    assert(ls.push(l).drop_last() =~= ls);
}

/// Law: a plan is the planning of the document's lines followed by a
/// 5000-step pen park, and the lines of a document consisting of one line of
/// the grammar are that line alone.
pub proof fn lemma_plan_document_parks(doc: Seq<char>)
    ensures
        plan_document(doc) == plan_lines(lines(doc)).push(StepModel::Pen { dz: 5000 }),
        is_gcode_line(doc) ==> lines(doc) == seq![doc],
{
    if is_gcode_line(doc) {
        lemma_lines_of_joined(seq![doc]);
        assert(join(seq![doc], '\n') == doc);
    }
}

/// Law: after a code prefix and a key of the grammar, any nonempty run of
/// the digits `0`..`9`, optionally followed by `.` and another such run, is a
/// line of the grammar, and it parses to that key with exactly that text.
pub proof fn lemma_decimal_lines_parse(c: char, key: char, a: Seq<char>, b: Seq<char>, frac: bool)
    requires
        '0' <= c <= '3',
        key == 'X' || key == 'Y' || key == 'R' || key == 'F',
        a.len() > 0,
        forall|i: int| 0 <= i < a.len() ==> '0' <= #[trigger] a[i] <= '9',
        frac ==> b.len() > 0,
        frac ==> forall|i: int| 0 <= i < b.len() ==> '0' <= #[trigger] b[i] <= '9',
    ensures
        ({
            let num = if frac { a.push('.') + b } else { a };
            let l = seq!['G', c, ' ', key] + num;
            &&& is_gcode_line(l)
            &&& line_instruction(l).1 == seq![(key, num)]
        }),
{
    let num = if frac { a.push('.') + b } else { a };
    let l = seq!['G', c, ' ', key] + num;
    let w = seq![key] + num;
    assert(is_digits(a));
    if frac {
        assert(is_digits(b));
        let k = a.len() as int;
        assert(num.take(k) =~= a);
        assert(num.skip(k + 1) =~= b);
        assert(num[k] == '.');
        assert(is_unsigned_number(num));
    }
    assert(is_number(num));
    assert(w.drop_first() =~= num);
    assert(is_param(w));
    assert(l.skip(3) =~= w);
    assert forall|i: int| 0 <= i < w.len() implies w[i] != ' ' by {
        lemma_number_chars(num);
        if i > 0 {
            assert(w[i] == num[i - 1]);
        }
    }
    crate::text::lemma_split_single(w, ' ');
    assert(param_words(l) == seq![w]);
    assert(line_instruction(l).1 =~= seq![(key, num)]);
}

} // verus!
