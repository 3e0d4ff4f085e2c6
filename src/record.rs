use crate::element::{
    is_orientation_symbol, orientation_of, symbol_of, Element, Orientation, RawAdventurer, RawMap,
    RawMountain, RawTreasure,
};
use vstd::prelude::*;
use vstd::string::StrSliceExecFns;

verus! {

/// Why a line of a board description could not be read.
#[derive(PartialEq, Eq, Structural, Debug, Clone, Copy)]
pub enum RecordError {
    /// The line has fewer fields than its kind needs.
    MissingField,
    /// A position or a count is not a decimal `usize`.
    BadNumber,
    /// The orientation field does not start with `N`, `S`, `E` or `O`.
    BadOrientation,
}

/// Blanks carry no meaning in a line and are dropped before it is read: the
/// characters of Unicode's White_Space property.
pub open spec fn is_blank(c: char) -> bool {
    ||| '\t' <= c <= '\r'
    ||| c == ' '
    ||| c == '\u{85}'
    ||| c == '\u{A0}'
    ||| c == '\u{1680}'
    ||| '\u{2000}' <= c <= '\u{200A}'
    ||| c == '\u{2028}'
    ||| c == '\u{2029}'
    ||| c == '\u{202F}'
    ||| c == '\u{205F}'
    ||| c == '\u{3000}'
}

fn blank(c: char) -> (r: bool)
    ensures
        r == is_blank(c),
{
    ('\t' <= c && c <= '\r') || c == ' ' || c == '\u{85}' || c == '\u{A0}' || c == '\u{1680}' || (
    '\u{2000}' <= c && c <= '\u{200A}') || c == '\u{2028}' || c == '\u{2029}' || c == '\u{202F}' || c
        == '\u{205F}' || c == '\u{3000}'
}

/// A line without its blanks.
pub open spec fn compact(s: Seq<char>) -> Seq<char> {
    s.filter(|c: char| !is_blank(c))
}

/// The fields of a line, cut at every `-`.
pub open spec fn split_fields(s: Seq<char>) -> Seq<Seq<char>>
    decreases s.len(),
{
    if s.len() == 0 {
        seq![Seq::empty()]
    } else {
        let f = split_fields(s.drop_last());
        if s.last() == '-' {
            f.push(Seq::empty())
        } else {
            f.update(f.len() - 1, f.last().push(s.last()))
        }
    }
}

/// A non-empty string of decimal digits.
pub open spec fn is_number(d: Seq<char>) -> bool {
    d.len() > 0 && forall|i: int| 0 <= i < d.len() ==> '0' <= #[trigger] d[i] <= '9'
}

/// The value of a string of decimal digits.
pub open spec fn number_value(d: Seq<char>) -> nat
    decreases d.len(),
{
    if d.len() == 0 {
        0
    } else {
        number_value(d.drop_last()) * 10 + (d.last() as nat - '0' as nat) as nat
    }
}

/// The digits of a field, after one optional leading `+`.
pub open spec fn unsigned_digits(d: Seq<char>) -> Seq<char> {
    if d.len() > 0 && d[0] == '+' {
        d.drop_first()
    } else {
        d
    }
}

/// The `usize` that a field holds, if it holds one.
pub open spec fn read_usize(d: Seq<char>) -> Option<usize> {
    let ds = unsigned_digits(d);
    if is_number(ds) && number_value(ds) <= usize::MAX {
        Some(number_value(ds) as usize)
    } else {
        None
    }
}

/// Drops the blanks of a line.
fn compact_chars(line: &str) -> (r: Vec<char>)
    ensures
        r@ == compact(line@),
{
    let n = line.unicode_len();
    let mut out: Vec<char> = Vec::new();
    let mut i: usize = 0;
    while i < n
        invariant
            n == line@.len(),
            i <= n,
            out@ == compact(line@.take(i as int)),
        decreases n - i,
    {
        let c = line.get_char(i);
        proof {
            assert(line@.take(i + 1) =~= line@.take(i as int).push(c));
            line@.take(i as int).lemma_filter_push(c, |c: char| !is_blank(c));
        }
        if !blank(c) {
            out.push(c);
        }
        i += 1;
    }
    assert(line@.take(n as int) =~= line@);
    out
}

/// The contents of a list of fields.
pub open spec fn field_views(v: Seq<Vec<char>>) -> Seq<Seq<char>> {
    v.map_values(|f: Vec<char>| f@)
}

/// Cuts a line into its fields at every `-`.
fn split_chars(s: &Vec<char>) -> (r: Vec<Vec<char>>)
    ensures
        field_views(r@) == split_fields(s@),
{
    let mut out: Vec<Vec<char>> = Vec::new();
    out.push(Vec::new());
    assert(field_views(out@) =~= split_fields(s@.take(0)));
    let mut i: usize = 0;
    while i < s.len()
        invariant
            i <= s.len(),
            field_views(out@) == split_fields(s@.take(i as int)),
        decreases s.len() - i,
    {
        let c = s[i];
        proof {
            assert(s@.take(i + 1).drop_last() =~= s@.take(i as int));
            lemma_fields_nonempty(s@.take(i as int));
        }
        if c == '-' {
            out.push(Vec::new());
        } else {
            let mut last = out.pop().unwrap();
            last.push(c);
            out.push(last);
        }
        i += 1;
        assert(field_views(out@) =~= split_fields(s@.take(i as int)));
    }
    assert(s@.take(s.len() as int) =~= s@);
    out
}

proof fn lemma_fields_nonempty(s: Seq<char>)
    ensures
        split_fields(s).len() >= 1,
    decreases s.len(),
{
    if s.len() > 0 {
        lemma_fields_nonempty(s.drop_last());
    }
}

/// Reads a decimal `usize`, with one optional leading `+`.
fn parse_usize(d: &Vec<char>) -> (r: Option<usize>)
    ensures
        r == read_usize(d@),
{
    let start: usize = if d.len() > 0 && d[0] == '+' {
        1
    } else {
        0
    };
    let ghost ds = d@.subrange(start as int, d.len() as int);
    assert(ds =~= unsigned_digits(d@));
    if d.len() == start {
        return None;
    }
    let mut value: usize = 0;
    let mut i: usize = start;
    while i < d.len()
        invariant
            start <= i <= d.len(),
            start < d.len(),
            ds == d@.subrange(start as int, d.len() as int),
            ds == unsigned_digits(d@),
            value == number_value(ds.take(i - start)),
            is_number(ds.take(i - start)) || i == start,
        decreases d.len() - i,
    {
        let c = d[i];
        proof {
            assert(c == ds[i - start]);
            assert(ds.take(i - start + 1).drop_last() =~= ds.take(i - start));
        }
        if c < '0' || c > '9' {
            return None;
        }
        let digit = (c as u32 - '0' as u32) as usize;
        match value.checked_mul(10) {
            Some(tens) => match tens.checked_add(digit) {
                Some(next) => {
                    value = next;
                },
                None => {
                    proof {
                        if is_number(ds) {
                            lemma_number_grows(ds, i - start + 1);
                        }
                    }
                    return None;
                },
            },
            None => {
                proof {
                    if is_number(ds) {
                        lemma_number_grows(ds, i - start + 1);
                    }
                }
                return None;
            },
        }
        i += 1;
        assert(is_number(ds.take(i - start)));
    }
    assert(ds.take(ds.len() as int) =~= ds);
    Some(value)
}

/// A longer prefix of digits is worth at least as much as a shorter one.
proof fn lemma_number_grows(d: Seq<char>, k: int)
    requires
        0 <= k <= d.len(),
        is_number(d),
    ensures
        number_value(d.take(k)) <= number_value(d),
    decreases d.len() - k,
{
    if k == d.len() {
        assert(d.take(k) =~= d);
    } else {
        lemma_number_grows(d, k + 1);
        assert(d.take(k + 1).drop_last() =~= d.take(k));
        assert(number_value(d.take(k)) * 10 <= number_value(d.take(k + 1))) by (nonlinear_arith)
            requires
                number_value(d.take(k + 1)) == number_value(d.take(k)) * 10 + (d[k] as nat - '0' as nat) as nat,
                number_value(d.take(k)) >= 0,
        ;
        assert(number_value(d.take(k)) <= number_value(d.take(k)) * 10) by (nonlinear_arith)
            requires
                number_value(d.take(k)) >= 0,
        ;
    }
}

/// What a line of a board description stands for.
pub enum RecordView {
    Size(usize, usize),
    Mountain(usize, usize),
    Treasure(usize, usize, usize),
    Adventurer(Seq<char>, usize, usize, Orientation, Seq<char>),
}

/// How a line reads: blanks are dropped, the rest is cut at each `-`, and the
/// first field names the kind. `C - rows - cols` gives the board's size,
/// `M - x - y` a mountain, `T - x - y - count` a treasure, and
/// `A - name - x - y - orientation - commands` an adventurer. A line of any
/// other kind is skipped (`Ok(None)`); fields beyond those needed are ignored.
pub open spec fn record_of(line: Seq<char>) -> Result<Option<RecordView>, RecordError> {
    let f = split_fields(compact(line));
    let kind = f[0];
    if kind == seq!['C'] || kind == seq!['M'] {
        if f.len() < 3 {
            Err(RecordError::MissingField)
        } else if read_usize(f[1]) is None || read_usize(f[2]) is None {
            Err(RecordError::BadNumber)
        } else if kind == seq!['C'] {
            Ok(Some(RecordView::Size(read_usize(f[1])->0, read_usize(f[2])->0)))
        } else {
            Ok(Some(RecordView::Mountain(read_usize(f[1])->0, read_usize(f[2])->0)))
        }
    } else if kind == seq!['T'] {
        if f.len() < 4 {
            Err(RecordError::MissingField)
        } else if read_usize(f[1]) is None || read_usize(f[2]) is None || read_usize(f[3]) is None {
            Err(RecordError::BadNumber)
        } else {
            Ok(Some(RecordView::Treasure(read_usize(f[1])->0, read_usize(f[2])->0, read_usize(f[3])->0)))
        }
    } else if kind == seq!['A'] {
        if f.len() < 6 {
            Err(RecordError::MissingField)
        } else if read_usize(f[2]) is None || read_usize(f[3]) is None {
            Err(RecordError::BadNumber)
        } else if f[4].len() == 0 || !is_orientation_symbol(f[4][0]) {
            Err(RecordError::BadOrientation)
        } else {
            Ok(
                Some(
                    RecordView::Adventurer(
                        f[1],
                        read_usize(f[2])->0,
                        read_usize(f[3])->0,
                        orientation_of(f[4][0]),
                        f[5],
                    ),
                ),
            )
        }
    } else {
        Ok(None)
    }
}

/// What an element says as a line of a board description.
pub open spec fn record_view(e: Element) -> Option<RecordView> {
    match e {
        Element::RawMap(m) => Some(RecordView::Size(m.position.0, m.position.1)),
        Element::RawMountain(m) => Some(RecordView::Mountain(m.position.0, m.position.1)),
        Element::RawTreasure(t) => Some(RecordView::Treasure(t.position.0, t.position.1, t.nb_treasure)),
        Element::RawAdventurer(a) => Some(
            RecordView::Adventurer(a.name@, a.position.0, a.position.1, a.orientation, a.pattern@),
        ),
        Element::Empty(_) => None,
    }
}

/// Relies on `String`'s `FromIterator<&char>`: the string holds the characters in order.
#[verifier::external_body]
fn string_from_chars(chars: &Vec<char>) -> (r: String)
    ensures
        r@ == chars@,
{
    chars.iter().collect()
}

fn is_kind(field: &Vec<char>, kind: char) -> (r: bool)
    ensures
        r == (field@ == seq![kind]),
{
    let r = field.len() == 1 && field[0] == kind;
    assert(r ==> field@ =~= seq![kind]);
    r
}

/// Reads one line of a board description; see `record_of`. An adventurer
/// read from a line has no treasure yet.
pub fn parse_record(line: &str) -> (r: Result<Option<Element>, RecordError>)
    ensures
        r is Ok <==> record_of(line@) is Ok,
        r matches Ok(Some(e)) ==> record_view(e) is Some && record_of(line@) == Ok::<Option<RecordView>, RecordError>(record_view(e)),
        r matches Ok(Some(e)) ==> (e matches Element::RawAdventurer(a) ==> a.treasure == 0),
        r matches Ok(None) ==> record_of(line@) == Ok::<Option<RecordView>, RecordError>(None),
        r matches Err(x) ==> record_of(line@) == Err::<Option<RecordView>, RecordError>(x),
{
    let compacted = compact_chars(line);
    let f = split_chars(&compacted);
    proof {
        lemma_fields_nonempty(compact(line@));
    }
    let ghost fv = field_views(f@);
    assert(fv.len() == f.len());
    if is_kind(&f[0], 'C') || is_kind(&f[0], 'M') {
        if f.len() < 3 {
            return Err(RecordError::MissingField);
        }
        let x = parse_usize(&f[1]);
        let y = parse_usize(&f[2]);
        match (x, y) {
            (Some(x), Some(y)) => if is_kind(&f[0], 'C') {
                Ok(Some(Element::RawMap(RawMap::new(x, y))))
            } else {
                Ok(Some(Element::RawMountain(RawMountain::new(x, y))))
            },
            _ => Err(RecordError::BadNumber),
        }
    } else if is_kind(&f[0], 'T') {
        if f.len() < 4 {
            return Err(RecordError::MissingField);
        }
        let x = parse_usize(&f[1]);
        let y = parse_usize(&f[2]);
        let n = parse_usize(&f[3]);
        match (x, y, n) {
            (Some(x), Some(y), Some(n)) => Ok(Some(Element::RawTreasure(RawTreasure::new(x, y, n)))),
            _ => Err(RecordError::BadNumber),
        }
    } else if is_kind(&f[0], 'A') {
        if f.len() < 6 {
            return Err(RecordError::MissingField);
        }
        let x = parse_usize(&f[2]);
        let y = parse_usize(&f[3]);
        match (x, y) {
            (Some(x), Some(y)) => {
                if f[4].len() == 0 {
                    return Err(RecordError::BadOrientation);
                }
                let symbol = f[4][0];
                if !(symbol == 'N' || symbol == 'S' || symbol == 'E' || symbol == 'O') {
                    return Err(RecordError::BadOrientation);
                }
                let adventurer = RawAdventurer::new(
                    string_from_chars(&f[1]),
                    x,
                    y,
                    Orientation::from_char(symbol),
                    string_from_chars(&f[5]),
                );
                Ok(Some(Element::RawAdventurer(adventurer)))
            },
            _ => Err(RecordError::BadNumber),
        }
    } else {
        Ok(None)
    }
}

/// The decimal digit for `d < 10`.
pub open spec fn digit_char(d: nat) -> char {
    ('0' as nat + d) as char
}

/// The decimal writing of `n`, without leading zeros.
pub open spec fn decimal(n: nat) -> Seq<char>
    decreases n,
{
    if n < 10 {
        seq![digit_char(n)]
    } else {
        decimal(n / 10).push(digit_char(n % 10))
    }
}

/// The separator between two fields of a written line.
pub open spec fn sep() -> Seq<char> {
    seq![' ', '-', ' ']
}

/// How an element is written as a line: `C - rows - cols`, `M - x - y`,
/// `T - x - y - count`, or `A - name - x - y - orientation - treasures`.
/// An empty cell writes nothing.
pub open spec fn text_of(e: Element) -> Seq<char> {
    match e {
        Element::RawMap(m) => seq!['C'] + sep() + decimal(m.position.0 as nat) + sep() + decimal(
            m.position.1 as nat,
        ),
        Element::RawMountain(m) => seq!['M'] + sep() + decimal(m.position.0 as nat) + sep() + decimal(
            m.position.1 as nat,
        ),
        Element::RawTreasure(t) => seq!['T'] + sep() + decimal(t.position.0 as nat) + sep() + decimal(
            t.position.1 as nat,
        ) + sep() + decimal(t.nb_treasure as nat),
        Element::RawAdventurer(a) => seq!['A'] + sep() + a.name@ + sep() + decimal(a.position.0 as nat)
            + sep() + decimal(a.position.1 as nat) + sep() + symbol_of(a.orientation) + sep() + decimal(
            a.treasure as nat,
        ),
        Element::Empty(_) => Seq::empty(),
    }
}

/// Appends the decimal writing of `n`.
fn push_decimal(n: usize, out: &mut Vec<char>)
    ensures
        final(out)@ == old(out)@ + decimal(n as nat),
    decreases n,
{
    if n >= 10 {
        push_decimal(n / 10, out);
    }
    let d: u8 = (n % 10) as u8;
    let c = (48u8 + d) as char;
    assert(c == digit_char((n % 10) as nat));
    out.push(c);
    assert(out@ =~= old(out)@ + decimal(n as nat));
}

/// Appends the characters of `s`.
fn push_str(s: &str, out: &mut Vec<char>)
    ensures
        final(out)@ == old(out)@ + s@,
{
    let n = s.unicode_len();
    let mut i: usize = 0;
    while i < n
        invariant
            n == s@.len(),
            i <= n,
            out@ == old(out)@ + s@.take(i as int),
        decreases n - i,
    {
        out.push(s.get_char(i));
        i += 1;
        assert(out@ =~= old(out)@ + s@.take(i as int));
    }
    assert(s@.take(n as int) =~= s@);
}

/// Appends a field separator and the decimal writing of `n`.
fn push_number_field(n: usize, out: &mut Vec<char>)
    ensures
        final(out)@ == old(out)@ + sep() + decimal(n as nat),
{
    out.push(' ');
    out.push('-');
    out.push(' ');
    assert(out@ =~= old(out)@ + sep());
    push_decimal(n, out);
    assert(out@ =~= old(out)@ + sep() + decimal(n as nat));
}

/// Appends a field separator and the characters of `s`.
fn push_text_field(s: &str, out: &mut Vec<char>)
    ensures
        final(out)@ == old(out)@ + sep() + s@,
{
    out.push(' ');
    out.push('-');
    out.push(' ');
    assert(out@ =~= old(out)@ + sep());
    push_str(s, out);
    assert(out@ =~= old(out)@ + sep() + s@);
}

/// Writes an element as a line of a board description; see `text_of`.
pub fn format_record(e: &Element) -> (r: String)
    ensures
        r@ == text_of(*e),
{
    let mut out: Vec<char> = Vec::new();
    match e {
        Element::RawMap(m) => {
            out.push('C');
            push_number_field(m.position.0, &mut out);
            push_number_field(m.position.1, &mut out);
        },
        Element::RawMountain(m) => {
            out.push('M');
            push_number_field(m.position.0, &mut out);
            push_number_field(m.position.1, &mut out);
        },
        Element::RawTreasure(t) => {
            out.push('T');
            push_number_field(t.position.0, &mut out);
            push_number_field(t.position.1, &mut out);
            push_number_field(t.nb_treasure, &mut out);
        },
        Element::RawAdventurer(a) => {
            out.push('A');
            push_text_field(a.name.as_str(), &mut out);
            push_number_field(a.position.0, &mut out);
            push_number_field(a.position.1, &mut out);
            let symbol = a.get_orientation_to_string();
            push_text_field(symbol.as_str(), &mut out);
            push_number_field(a.treasure, &mut out);
        },
        Element::Empty(_) => {},
    }
    assert(out@ =~= text_of(*e));
    string_from_chars(&out)
}

} // verus!
