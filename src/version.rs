use vstd::prelude::*;
use crate::text::{digit_char, occurs, occurs_in, split_on, split_char, chars_of, decimal, push_decimal, lemma_split_on_nonempty};
use vstd::string::StringExecFns;
use vstd::string::StrSliceExecFns;

verus! {

/// A toolchain version: (major, minor, patch).
pub type Triple = (u32, u32, u32);

pub open spec fn is_version_char(c: char) -> bool {
    ('0' <= c && c <= '9') || c == '.'
}

pub open spec fn is_digit(c: char) -> bool {
    '0' <= c && c <= '9'
}

/// Number of dots in `t`.
pub open spec fn dot_count(t: Seq<char>) -> nat
    decreases t.len(),
{
    if t.len() == 0 {
        0
    } else {
        dot_count(t.drop_last()) + if t.last() == '.' { 1nat } else { 0nat }
    }
}

/// Scanning `s` left to right: the maximal runs of digits and dots that are closed,
/// and the run still open at the end of `s`.
pub open spec fn runs_scan(s: Seq<char>) -> (Seq<Seq<char>>, Seq<char>)
    decreases s.len(),
{
    if s.len() == 0 {
        (Seq::empty(), Seq::empty())
    } else {
        let (done, cur) = runs_scan(s.drop_last());
        if is_version_char(s.last()) {
            (done, cur.push(s.last()))
        } else if cur.len() > 0 {
            (done.push(cur), Seq::empty())
        } else {
            (done, cur)
        }
    }
}

/// The maximal runs of digits and dots in `s`, left to right.
pub open spec fn runs(s: Seq<char>) -> Seq<Seq<char>> {
    let (done, cur) = runs_scan(s);
    if cur.len() > 0 { done.push(cur) } else { done }
}

/// The runs that hold exactly two dots, in order.
pub open spec fn with_two_dots(ts: Seq<Seq<char>>) -> Seq<Seq<char>>
    decreases ts.len(),
{
    if ts.len() == 0 {
        ts
    } else {
        let rest = with_two_dots(ts.drop_last());
        if dot_count(ts.last()) == 2 { rest.push(ts.last()) } else { rest }
    }
}

/// The dotted numeric tokens of a line that have three components.
pub open spec fn version_tokens(line: Seq<char>) -> Seq<Seq<char>> {
    with_two_dots(runs(line))
}

/// The value of a string of decimal digits.
pub open spec fn digits_value(s: Seq<char>) -> nat
    decreases s.len(),
{
    if s.len() == 0 {
        0
    } else {
        digits_value(s.drop_last()) * 10 + ((s.last() as u32) - ('0' as u32)) as nat
    }
}

pub open spec fn all_digits(s: Seq<char>) -> bool {
    forall|i: int| 0 <= i < s.len() ==> is_digit(#[trigger] s[i])
}

/// An unsigned 32-bit number in the text form that `u32::from_str` takes:
/// an optional `+`, then one or more decimal digits, with a value that fits.
pub open spec fn parse_u32_spec(s: Seq<char>) -> Option<u32> {
    let digits = if s.len() > 0 && s[0] == '+' { s.drop_first() } else { s };
    if digits.len() > 0 && all_digits(digits) && digits_value(digits) <= u32::MAX {
        Some(digits_value(digits) as u32)
    } else {
        None
    }
}

/// A version triple: three dot-separated numbers.
pub open spec fn parse_version_spec(s: Seq<char>) -> Option<Triple> {
    let parts = split_on(s, '.');
    if parts.len() == 3 && parse_u32_spec(parts[0]) is Some && parse_u32_spec(parts[1]) is Some
        && parse_u32_spec(parts[2]) is Some {
        Some((parse_u32_spec(parts[0])->0, parse_u32_spec(parts[1])->0, parse_u32_spec(parts[2])->0))
    } else {
        None
    }
}

/// Only this many leading lines of a source file are searched for directives.
pub const HEADER_LINES: usize = 20;

/// The text that marks a version directive.
pub open spec fn directive_keyword() -> Seq<char> {
    "pragma solidity"@
}

/// The triples that parse among `ts`, in order.
pub open spec fn parsed_all(ts: Seq<Seq<char>>) -> Seq<Triple>
    decreases ts.len(),
{
    if ts.len() == 0 {
        Seq::empty()
    } else {
        let rest = parsed_all(ts.drop_last());
        match parse_version_spec(ts.last()) {
            Some(t) => rest.push(t),
            None => rest,
        }
    }
}

/// The triples that one line declares: none unless it holds the directive keyword.
pub open spec fn directive_versions(line: Seq<char>) -> Seq<Triple> {
    if occurs_in(line, directive_keyword()) {
        parsed_all(version_tokens(line))
    } else {
        Seq::empty()
    }
}

/// The triples declared by a sequence of lines, line by line.
pub open spec fn lines_versions(lines: Seq<Seq<char>>) -> Seq<Triple>
    decreases lines.len(),
{
    if lines.len() == 0 {
        Seq::empty()
    } else {
        lines_versions(lines.drop_last()) + directive_versions(lines.last())
    }
}

/// The first lines of a file's text that are searched. A carriage return before a
/// line feed stays at the end of its line: it is neither a digit nor a dot, and
/// cannot be part of the keyword.
pub open spec fn header_of(content: Seq<char>) -> Seq<Seq<char>> {
    let lines = split_on(content, '\n');
    if lines.len() <= HEADER_LINES { lines } else { lines.take(HEADER_LINES as int) }
}

/// The triples declared by a file's text.
pub open spec fn file_versions_spec(content: Seq<char>) -> Seq<Triple> {
    lines_versions(header_of(content))
}

/// The triples declared by several files, file by file.
pub open spec fn all_versions(files: Seq<Seq<char>>) -> Seq<Triple>
    decreases files.len(),
{
    if files.len() == 0 {
        Seq::empty()
    } else {
        all_versions(files.drop_last()) + file_versions_spec(files.last())
    }
}

/// `b` is one of `ts` and none of `ts` is greater.
pub open spec fn is_max_of(b: Triple, ts: Seq<Triple>) -> bool {
    ts.contains(b) && forall|i: int| 0 <= i < ts.len() ==> !triple_lt(b, #[trigger] ts[i])
}

/// The text form of a triple, as the version manager takes it: `major.minor.patch`.
pub open spec fn version_text_spec(t: Triple) -> Seq<char> {
    decimal(t.0 as nat) + seq!['.'] + decimal(t.1 as nat) + seq!['.'] + decimal(t.2 as nat)
}

/// Numeric order on triples: by major, then minor, then patch.
pub open spec fn triple_lt(a: Triple, b: Triple) -> bool {
    a.0 < b.0 || (a.0 == b.0 && (a.1 < b.1 || (a.1 == b.1 && a.2 < b.2)))
}

proof fn lemma_digits_value_grows(s: Seq<char>, i: int, j: int)
    requires
        0 <= i <= j <= s.len(),
        all_digits(s),
    ensures
        digits_value(s.take(i)) <= digits_value(s.take(j)),
    decreases j - i,
{
    if i < j {
        lemma_digits_value_grows(s, i, j - 1);
        assert(s.take(j).drop_last() =~= s.take(j - 1));
    }
}

/// Parses `cs[lo..hi]` as `u32::from_str` would.
fn parse_u32_range(cs: &Vec<char>, lo: usize, hi: usize) -> (r: Option<u32>)
    requires
        lo <= hi <= cs.len(),
    ensures
        r == parse_u32_spec(cs@.subrange(lo as int, hi as int)),
{
    let ghost s = cs@.subrange(lo as int, hi as int);
    let mut start = lo;
    if lo < hi && cs[lo] == '+' {
        start = lo + 1;
    }
    let ghost digits = cs@.subrange(start as int, hi as int);
    assert(digits == if s.len() > 0 && s[0] == '+' { s.drop_first() } else { s });
    if start == hi {
        return None;
    }
    let mut value: u64 = 0;
    let mut i = start;
    while i < hi
        invariant
            lo <= start <= i <= hi <= cs.len(),
            digits == cs@.subrange(start as int, hi as int),
            s == cs@.subrange(lo as int, hi as int),
            digits == (if s.len() > 0 && s[0] == '+' { s.drop_first() } else { s }),
            digits.len() > 0,
            all_digits(digits.take(i - start)),
            value == digits_value(digits.take(i - start)),
            value <= u32::MAX,
        decreases hi - i,
    {
        let c = cs[i];
        if !('0' <= c && c <= '9') {
            assert(digits[i - start] == c);
            assert(!is_digit(digits[i - start]));
            assert(!all_digits(digits));
            return None;
        }
        let d = (c as u32 - '0' as u32) as u64;
        assert(digits.take(i + 1 - start).drop_last() =~= digits.take(i - start));
        assert(digits.take(i + 1 - start).last() == c);
        assert(digits_value(digits.take(i + 1 - start)) == value * 10 + d);
        assert(all_digits(digits.take(i + 1 - start)));
        if value * 10 + d > u32::MAX as u64 {
            proof {
                if all_digits(digits) {
                    lemma_digits_value_grows(digits, i + 1 - start, digits.len() as int);
                    assert(digits.take(digits.len() as int) =~= digits);
                }
            }
            return None;
        }
        value = value * 10 + d;
        i = i + 1;
    }
    assert(digits.take(hi - start) =~= digits);
    Some(value as u32)
}

/// The (major, minor, patch) triple that `value` spells, if it has exactly three
/// dot-separated components and each is a `u32`.
pub fn parse_version(value: &str) -> (r: Option<Triple>)
    ensures
        r == parse_version_spec(value@),
{
    let parts = split_char(value, '.');
    proof {
        lemma_split_on_nonempty(value@, '.');
    }
    if parts.len() != 3 {
        return None;
    }
    let a = chars_of(parts[0].as_str());
    let b = chars_of(parts[1].as_str());
    let c = chars_of(parts[2].as_str());
    assert(parts@.map_values(|p: String| p@)[0] == parts@[0]@);
    assert(parts@.map_values(|p: String| p@)[1] == parts@[1]@);
    assert(parts@.map_values(|p: String| p@)[2] == parts@[2]@);
    assert(a@.subrange(0, a@.len() as int) =~= a@);
    assert(b@.subrange(0, b@.len() as int) =~= b@);
    assert(c@.subrange(0, c@.len() as int) =~= c@);
    let major = parse_u32_range(&a, 0, a.len());
    let minor = parse_u32_range(&b, 0, b.len());
    let patch = parse_u32_range(&c, 0, c.len());
    match (major, minor, patch) {
        (Some(x), Some(y), Some(z)) => Some((x, y, z)),
        _ => None,
    }
}

/// The runs of digits and dots in `line` that hold exactly two dots, left to right.
pub fn extract_versions(line: &str) -> (r: Vec<String>)
    ensures
        r@.map_values(|t: String| t@) == version_tokens(line@),
{
    let cs = chars_of(line);
    let mut out: Vec<String> = Vec::new();
    let mut start: usize = 0;
    let mut dots: usize = 0;
    let mut i: usize = 0;
    let ghost mut done: Seq<Seq<char>> = Seq::empty();
    assert(line@.take(0) =~= Seq::<char>::empty());
    assert(line@.subrange(0, 0) =~= Seq::<char>::empty());
    while i < cs.len()
        invariant
            cs@ == line@,
            start <= i <= cs.len(),
            runs_scan(line@.take(i as int)) == (done, line@.subrange(start as int, i as int)),
            dots as nat == dot_count(line@.subrange(start as int, i as int)),
            dots <= i - start,
            out@.map_values(|t: String| t@) == with_two_dots(done),
        decreases cs.len() - i,
    {
        let c = cs[i];
        let ghost cur = line@.subrange(start as int, i as int);
        assert(line@.take(i + 1).drop_last() =~= line@.take(i as int));
        assert(line@.take(i + 1).last() == c);
        if ('0' <= c && c <= '9') || c == '.' {
            assert(cur.push(c) =~= line@.subrange(start as int, i + 1));
            assert(line@.subrange(start as int, i + 1).drop_last() =~= cur);
            if c == '.' {
                dots = dots + 1;
            }
        } else {
            if start < i {
                let ghost prev = out@.map_values(|t: String| t@);
                assert(done.push(cur).drop_last() =~= done);
                if dots == 2 {
                    let token = line.substring_char(start, i).to_owned();
                    out.push(token);
                    assert(out@.map_values(|t: String| t@) =~= prev.push(cur));
                }
                proof {
                    done = done.push(cur);
                }
            }
            start = i + 1;
            dots = 0;
            assert(line@.subrange(start as int, start as int) =~= Seq::<char>::empty());
        }
        i = i + 1;
    }
    assert(line@.take(cs.len() as int) =~= line@);
    if start < cs.len() && dots == 2 {
        let ghost prev = out@.map_values(|t: String| t@);
        let ghost cur = line@.subrange(start as int, cs.len() as int);
        let token = line.substring_char(start, cs.len()).to_owned();
        out.push(token);
        assert(done.push(cur).drop_last() =~= done);
        assert(out@.map_values(|t: String| t@) =~= prev.push(cur));
    } else if start < cs.len() {
        let ghost cur = line@.subrange(start as int, cs.len() as int);
        assert(done.push(cur).drop_last() =~= done);
    }
    out
}

/// The triples declared by one line, in order.
pub fn line_versions(line: &str) -> (r: Vec<Triple>)
    ensures
        r@ == directive_versions(line@),
{
    let keyword = chars_of("pragma solidity");
    proof {
        reveal_strlit("pragma solidity");
    }
    let cs = chars_of(line);
    let mut out: Vec<Triple> = Vec::new();
    if !occurs(&cs, &keyword) {
        return out;
    }
    let tokens = extract_versions(line);
    let ghost ts = tokens@.map_values(|t: String| t@);
    let mut i: usize = 0;
    while i < tokens.len()
        invariant
            ts == tokens@.map_values(|t: String| t@),
            i <= tokens.len(),
            out@ == parsed_all(ts.take(i as int)),
        decreases tokens.len() - i,
    {
        assert(ts.take(i + 1).drop_last() =~= ts.take(i as int));
        assert(ts.take(i + 1).last() == tokens@[i as int]@);
        if let Some(t) = parse_version(tokens[i].as_str()) {
            out.push(t);
        }
        i = i + 1;
    }
    assert(ts.take(tokens.len() as int) =~= ts);
    out
}

/// The triples declared in the leading lines of a file's text, in order.
pub fn file_versions(content: &str) -> (r: Vec<Triple>)
    ensures
        r@ == file_versions_spec(content@),
{
    let lines = split_char(content, '\n');
    let ghost ls = lines@.map_values(|p: String| p@);
    let ghost header = header_of(content@);
    let n = if lines.len() <= HEADER_LINES { lines.len() } else { HEADER_LINES };
    assert(header =~= ls.take(n as int));
    let mut out: Vec<Triple> = Vec::new();
    let mut i: usize = 0;
    assert(header.take(0) =~= Seq::<Seq<char>>::empty());
    while i < n
        invariant
            ls == lines@.map_values(|p: String| p@),
            header == ls.take(n as int),
            n <= lines.len(),
            i <= n,
            out@ == lines_versions(header.take(i as int)),
        decreases n - i,
    {
        assert(header.take(i + 1).drop_last() =~= header.take(i as int));
        assert(header.take(i + 1).last() == lines@[i as int]@);
        let found = line_versions(lines[i].as_str());
        let mut j: usize = 0;
        let ghost before = out@;
        while j < found.len()
            invariant
                j <= found.len(),
                out@ == before + found@.take(j as int),
            decreases found.len() - j,
        {
            out.push(found[j]);
            assert(before + found@.take(j + 1) =~= (before + found@.take(j as int)).push(found@[j as int]));
            j = j + 1;
        }
        assert(found@.take(found.len() as int) =~= found@);
        i = i + 1;
    }
    assert(header.take(n as int) =~= header);
    out
}

/// The greatest of `ts` in numeric order, or `None` when `ts` is empty.
pub fn max_version(ts: &Vec<Triple>) -> (r: Option<Triple>)
    ensures
        r is None <==> ts@.len() == 0,
        r matches Some(b) ==> is_max_of(b, ts@),
{
    if ts.len() == 0 {
        return None;
    }
    let mut best = ts[0];
    let mut i: usize = 1;
    assert(ts@.take(1)[0] == best);
    while i < ts.len()
        invariant
            1 <= i <= ts.len(),
            ts@.take(i as int).contains(best),
            forall|k: int| 0 <= k < i ==> !triple_lt(best, #[trigger] ts@[k]),
        decreases ts.len() - i,
    {
        let t = ts[i];
        assert(ts@.take(i as int).contains(best));
        let ghost w = choose|w: int| 0 <= w < i && ts@.take(i as int)[w] == best;
        if t.0 > best.0 || (t.0 == best.0 && (t.1 > best.1 || (t.1 == best.1 && t.2 > best.2))) {
            best = t;
            assert(ts@.take(i + 1)[i as int] == t);
        } else {
            assert(ts@.take(i + 1)[w] == best);
        }
        i = i + 1;
    }
    assert(ts@.take(ts.len() as int) =~= ts@);
    Some(best)
}

/// The version that a set of source files asks for: the greatest triple declared in
/// the leading lines of any of them, or `None` when none declares one.
pub fn detect_version(sources: &Vec<String>) -> (r: Option<Triple>)
    ensures
        r is None <==> all_versions(sources@.map_values(|s: String| s@)).len() == 0,
        r matches Some(b) ==> is_max_of(b, all_versions(sources@.map_values(|s: String| s@))),
{
    let ghost fs = sources@.map_values(|s: String| s@);
    let mut all: Vec<Triple> = Vec::new();
    let mut i: usize = 0;
    assert(fs.take(0) =~= Seq::<Seq<char>>::empty());
    while i < sources.len()
        invariant
            fs == sources@.map_values(|s: String| s@),
            i <= sources.len(),
            all@ == all_versions(fs.take(i as int)),
        decreases sources.len() - i,
    {
        assert(fs.take(i + 1).drop_last() =~= fs.take(i as int));
        assert(fs.take(i + 1).last() == sources@[i as int]@);
        let found = file_versions(sources[i].as_str());
        let mut j: usize = 0;
        let ghost before = all@;
        while j < found.len()
            invariant
                j <= found.len(),
                all@ == before + found@.take(j as int),
            decreases found.len() - j,
        {
            all.push(found[j]);
            assert(before + found@.take(j + 1) =~= (before + found@.take(j as int)).push(found@[j as int]));
            j = j + 1;
        }
        assert(found@.take(found.len() as int) =~= found@);
        i = i + 1;
    }
    assert(fs.take(sources.len() as int) =~= fs);
    max_version(&all)
}

proof fn lemma_decimal_is_digits(n: nat)
    ensures
        decimal(n).len() >= 1,
        all_digits(decimal(n)),
        digits_value(decimal(n)) == n,
    decreases n,
{
    let d = n % 10;
    assert(digit_char(d) as u32 - '0' as u32 == d && is_digit(digit_char(d))) by {
        if d == 0 {} else if d == 1 {} else if d == 2 {} else if d == 3 {} else if d == 4 {}
        else if d == 5 {} else if d == 6 {} else if d == 7 {} else if d == 8 {} else {}
    }
    if n >= 10 {
        lemma_decimal_is_digits(n / 10);
        let s = decimal(n);
        assert(s.drop_last() =~= decimal(n / 10));
        assert(s.last() == digit_char(d));
        assert(n == (n / 10) * 10 + d);
        assert(digits_value(s) == digits_value(decimal(n / 10)) * 10 + d);
        assert forall|i: int| 0 <= i < s.len() implies is_digit(#[trigger] s[i]) by {
            if i < s.len() - 1 {
                assert(s[i] == decimal(n / 10)[i]);
            }
        }
    } else {
        assert(decimal(n).drop_last() =~= Seq::<char>::empty());
        assert(d == n);
        assert(decimal(n).last() == digit_char(d));
        assert(digits_value(decimal(n)) == digits_value(Seq::<char>::empty()) * 10 + d);
    }
}

proof fn lemma_split_without_sep(y: Seq<char>, sep: char)
    requires
        forall|i: int| 0 <= i < y.len() ==> y[i] != sep,
    ensures
        split_on(y, sep) == seq![y],
    decreases y.len(),
{
    if y.len() > 0 {
        lemma_split_without_sep(y.drop_last(), sep);
        assert(y.last() != sep);
        assert(y.drop_last().push(y.last()) =~= y);
        assert(seq![y.drop_last()].update(0, y) =~= seq![y]);
    } else {
        assert(y =~= Seq::<char>::empty());
    }
}

proof fn lemma_split_concat(x: Seq<char>, y: Seq<char>, sep: char)
    ensures
        split_on(x + seq![sep] + y, sep) == split_on(x, sep) + split_on(y, sep),
    decreases y.len(),
{
    let z = x + seq![sep] + y;
    if y.len() == 0 {
        assert(z.drop_last() =~= x);
        assert(split_on(y, sep) =~= seq![Seq::<char>::empty()]);
        assert(split_on(x, sep).push(Seq::<char>::empty()) =~= split_on(x, sep) + split_on(y, sep));
    } else {
        lemma_split_concat(x, y.drop_last(), sep);
        assert(z.drop_last() =~= x + seq![sep] + y.drop_last());
        assert(z.last() == y.last());
        let a = split_on(x, sep);
        let b = split_on(y.drop_last(), sep);
        lemma_split_on_nonempty(y.drop_last(), sep);
        if y.last() == sep {
            assert((a + b).push(Seq::<char>::empty()) =~= a + b.push(Seq::<char>::empty()));
        } else {
            assert((a + b).update((a + b).len() - 1, (a + b).last().push(y.last())) =~= a + b.update(
                b.len() - 1,
                b.last().push(y.last()),
            ));
        }
    }
}

proof fn lemma_parse_decimal(n: u32)
    ensures
        parse_u32_spec(decimal(n as nat)) == Some(n),
        forall|i: int| 0 <= i < decimal(n as nat).len() ==> decimal(n as nat)[i] != '.',
{
    lemma_decimal_is_digits(n as nat);
    let s = decimal(n as nat);
    assert(is_digit(s[0]));
    assert forall|i: int| 0 <= i < s.len() implies s[i] != '.' by {
        assert(is_digit(s[i]));
    }
}

/// Reading back the text form of a version gives the version.
pub proof fn lemma_version_text_round_trip(t: Triple)
    ensures
        parse_version_spec(version_text_spec(t)) == Some(t),
{
    let a = decimal(t.0 as nat);
    let b = decimal(t.1 as nat);
    let c = decimal(t.2 as nat);
    lemma_parse_decimal(t.0);
    lemma_parse_decimal(t.1);
    lemma_parse_decimal(t.2);
    lemma_split_without_sep(a, '.');
    lemma_split_without_sep(b, '.');
    lemma_split_without_sep(c, '.');
    lemma_split_concat(a, b, '.');
    lemma_split_concat(a + seq!['.'] + b, c, '.');
    let parts = split_on(version_text_spec(t), '.');
    assert(parts =~= seq![a, b, c]);
}

/// The greatest triple is unique: a result that meets `is_max_of` is fixed by the
/// triples alone, in numeric order.
pub proof fn lemma_max_is_unique(a: Triple, b: Triple, ts: Seq<Triple>)
    requires
        is_max_of(a, ts),
        is_max_of(b, ts),
    ensures
        a == b,
{
    let i = choose|i: int| 0 <= i < ts.len() && ts[i] == a;
    let j = choose|j: int| 0 <= j < ts.len() && ts[j] == b;
    assert(!triple_lt(a, ts[j]));
    assert(!triple_lt(b, ts[i]));
}

/// The text form of `t`: `major.minor.patch` in decimal.
pub fn version_text(t: Triple) -> (r: String)
    ensures
        r@ == version_text_spec(t),
{
    let mut out = String::new();
    push_decimal(&mut out, t.0 as u64);
    out.append(".");
    push_decimal(&mut out, t.1 as u64);
    out.append(".");
    push_decimal(&mut out, t.2 as u64);
    proof {
        reveal_strlit(".");
    }
    assert(out@ =~= version_text_spec(t));
    out
}

} // verus!
