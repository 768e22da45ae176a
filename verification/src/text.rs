//! Strings as sequences of characters: the few text operations that the
//! rendering of questions and answers is made of.

use vstd::prelude::*;
use vstd::string::StringExecFns;

verus! {

/// `String::push` appends one character.
pub assume_specification[ std::string::String::push ](s: &mut std::string::String, c: char)
    ensures
        final(s)@ == old(s)@.push(c),
;

/// Whether two strings hold the same characters.
pub fn same_text(a: &str, b: &str) -> (r: bool)
    ensures
        r == (a@ == b@),
{
    a.to_owned() == b.to_owned()
}

/// The characters of a string, in order.
pub fn chars_of(s: &str) -> (r: Vec<char>)
    ensures
        r@ == s@,
{
    let mut r: Vec<char> = Vec::new();
    for c in it: s.chars()
        invariant
            r@ == it.seq().take(it.index() as int),
            it.seq() == s@,
    {
        r.push(c);
    }
    r
}

/// The string that is made of the characters from position `from` up to, but
/// not including, position `to`.
pub fn text_between(chars: &Vec<char>, from: usize, to: usize) -> (r: String)
    requires
        from <= to <= chars@.len(),
    ensures
        r@ == chars@.subrange(from as int, to as int),
{
    let mut r = String::new();
    let mut i: usize = from;
    while i < to
        invariant
            from <= i <= to <= chars@.len(),
            r@ == chars@.subrange(from as int, i as int),
        decreases to - i,
    {
        r.push(chars[i]);
        i += 1;
        assert(chars@.subrange(from as int, i as int) =~= chars@.subrange(
            from as int,
            i - 1,
        ).push(chars@[i - 1]));
    }
    r
}

/// Two strings, one after the other.
pub fn joined(a: &str, b: &str) -> (r: String)
    ensures
        r@ == a@ + b@,
{
    let mut r = a.to_owned();
    r.append(b);
    r
}

/// Three strings, one after the other.
pub fn joined3(a: &str, b: &str, c: &str) -> (r: String)
    ensures
        r@ == a@ + b@ + c@,
{
    let mut r = a.to_owned();
    r.append(b);
    r.append(c);
    r
}

/// `s` with every match of `pat`, taken from the left and without overlap,
/// replaced by `with`. An empty pattern matches before each character and at
/// the end.
pub open spec fn replaced(s: Seq<char>, pat: Seq<char>, with: Seq<char>) -> Seq<char>
    decreases s.len(),
{
    if pat.len() == 0 {
        if s.len() == 0 {
            with
        } else {
            with + seq![s[0]] + replaced(s.skip(1), pat, with)
        }
    } else if s.len() < pat.len() {
        s
    } else if s.take(pat.len() as int) == pat {
        with + replaced(s.skip(pat.len() as int), pat, with)
    } else {
        seq![s[0]] + replaced(s.skip(1), pat, with)
    }
}

/// Whether `pat` occurs in `s` at position `at`.
pub open spec fn occurs_at(s: Seq<char>, pat: Seq<char>, at: int) -> bool {
    0 <= at && at + pat.len() <= s.len() && s.subrange(at, at + pat.len()) == pat
}

/// Whether `pat` stands in `s` at position `at`.
fn stands_at(s: &Vec<char>, pat: &Vec<char>, at: usize) -> (r: bool)
    requires
        at <= s@.len(),
    ensures
        r == occurs_at(s@, pat@, at as int),
{
    if s.len() - at < pat.len() {
        return false;
    }
    let len: usize = s.len();
    let mut i: usize = 0;
    while i < pat.len()
        invariant
            i <= pat@.len(),
            at + pat@.len() <= s@.len() == len,
            forall|j: int| 0 <= j < i ==> s@[at + j] == #[trigger] pat@[j],
        decreases pat.len() - i,
    {
        if s[at + i] != pat[i] {
            assert(s@.subrange(at as int, at + pat@.len())[i as int] != pat@[i as int]);
            return false;
        }
        i += 1;
    }
    assert(s@.subrange(at as int, at + pat@.len()) =~= pat@);
    true
}

/// Replaces every match of `pat` in `s` by `with`.
pub fn replace_all(s: &str, pat: &str, with: &str) -> (r: String)
    ensures
        r@ == replaced(s@, pat@, with@),
{
    let text = chars_of(s);
    let wanted = chars_of(pat);
    let mut r = String::new();
    let mut i: usize = 0;
    proof {
        assert(s@.skip(0) =~= s@);
    }
    while i < text.len()
        invariant
            i <= text@.len(),
            text@ == s@,
            wanted@ == pat@,
            replaced(s@, pat@, with@) == r@ + replaced(s@.skip(i as int), pat@, with@),
        decreases text.len() - i,
    {
        let ghost rest = s@.skip(i as int);
        let ghost before = r@;
        assert(rest[0] == s@[i as int]);
        if wanted.len() == 0 {
            r.append(with);
            r.push(text[i]);
            assert(rest.skip(1) =~= s@.skip(i + 1));
            assert(r@ + replaced(s@.skip(i + 1), pat@, with@) =~= before + (with@ + seq![rest[0]]
                + replaced(rest.skip(1), pat@, with@)));
            i += 1;
        } else if stands_at(&text, &wanted, i) {
            assert(rest.take(pat@.len() as int) =~= s@.subrange(i as int, i + pat@.len()));
            assert(rest.skip(pat@.len() as int) =~= s@.skip(i + pat@.len()));
            r.append(with);
            assert(r@ + replaced(s@.skip(i + pat@.len()), pat@, with@) =~= before + (with@
                + replaced(rest.skip(pat@.len() as int), pat@, with@)));
            i += wanted.len();
        } else {
            r.push(text[i]);
            proof {
                if rest.len() < pat@.len() {
                    assert(rest.skip(1).len() < pat@.len());
                    assert(rest =~= seq![rest[0]] + rest.skip(1));
                } else {
                    assert(rest.take(pat@.len() as int) =~= s@.subrange(i as int, i + pat@.len()));
                }
            }
            assert(rest.skip(1) =~= s@.skip(i + 1));
            assert(r@ + replaced(s@.skip(i + 1), pat@, with@) =~= before + (seq![rest[0]]
                + replaced(rest.skip(1), pat@, with@)));
            i += 1;
        }
    }
    assert(s@.skip(i as int).len() == 0);
    if wanted.len() == 0 {
        r.append(with);
    } else {
        assert(r@ + s@.skip(i as int) =~= r@);
    }
    r
}

/// A beginning of the replaced text that holds no blank is a beginning of the
/// text itself.
proof fn unblanked_beginning_is_kept(s: Seq<char>, pat: Seq<char>, n: int)
    requires
        pat.len() > 0,
        0 <= n <= replaced(s, pat, seq![' ']).len(),
        forall|i: int| 0 <= i < n ==> (#[trigger] replaced(s, pat, seq![' '])[i]) != ' ',
    ensures
        n <= s.len(),
        s.take(n) == replaced(s, pat, seq![' ']).take(n),
    decreases s.len(),
{
    let r = replaced(s, pat, seq![' ']);
    if n == 0 {
        assert(s.take(n) =~= r.take(n));
    } else if s.len() < pat.len() {
    } else if s.take(pat.len() as int) == pat {
        assert(r[0] == ' ');
    } else {
        let rest = s.skip(1);
        let q = replaced(rest, pat, seq![' ']);
        assert forall|i: int| 0 <= i < n - 1 implies (#[trigger] q[i]) != ' ' by {
            assert(r[i + 1] == q[i]);
        }
        unblanked_beginning_is_kept(rest, pat, n - 1);
        assert(s.take(n) =~= seq![s[0]] + rest.take(n - 1));
        assert(r.take(n) =~= seq![s[0]] + q.take(n - 1));
    }
}

/// A text in which every match of a pattern without blanks was replaced by a
/// blank holds no match of the pattern any more.
pub proof fn blanked_pattern_is_gone(s: Seq<char>, pat: Seq<char>, at: int)
    requires
        pat.len() > 0,
        !pat.contains(' '),
    ensures
        !occurs_at(replaced(s, pat, seq![' ']), pat, at),
    decreases s.len(),
{
    let r = replaced(s, pat, seq![' ']);
    if occurs_at(r, pat, at) {
        assert forall|i: int| at <= i < at + pat.len() implies (#[trigger] r[i]) != ' ' by {
            assert(r.subrange(at, at + pat.len())[i - at] == r[i]);
            assert(pat.contains(pat[i - at]));
        }
        if s.len() < pat.len() {
        } else if s.take(pat.len() as int) == pat {
            let rest = s.skip(pat.len() as int);
            let q = replaced(rest, pat, seq![' ']);
            blanked_pattern_is_gone(rest, pat, at - 1);
            if at > 0 {
                assert(r.subrange(at, at + pat.len()) =~= q.subrange(at - 1, at - 1 + pat.len()));
            } else {
                assert(r[0] == ' ');
            }
        } else {
            let rest = s.skip(1);
            let q = replaced(rest, pat, seq![' ']);
            blanked_pattern_is_gone(rest, pat, at - 1);
            if at > 0 {
                assert(r.subrange(at, at + pat.len()) =~= q.subrange(at - 1, at - 1 + pat.len()));
            } else {
                unblanked_beginning_is_kept(s, pat, pat.len() as int);
                assert(r.subrange(0, pat.len() as int) =~= r.take(pat.len() as int));
            }
        }
    }
}

/// Two texts without a match of a pattern that holds no blank have none when
/// they stand side by side with a blank between them.
pub proof fn blank_separates(a: Seq<char>, b: Seq<char>, pat: Seq<char>, at: int)
    requires
        pat.len() > 0,
        !pat.contains(' '),
        forall|i: int| !#[trigger] occurs_at(a, pat, i),
        forall|i: int| !#[trigger] occurs_at(b, pat, i),
    ensures
        !occurs_at(a + seq![' '] + b, pat, at),
{
    let s = a + seq![' '] + b;
    if occurs_at(s, pat, at) {
        if at + pat.len() <= a.len() {
            assert(a.subrange(at, at + pat.len()) =~= s.subrange(at, at + pat.len()));
            assert(occurs_at(a, pat, at));
        } else if at > a.len() {
            let from = at - a.len() - 1;
            assert(b.subrange(from, from + pat.len()) =~= s.subrange(at, at + pat.len()));
            assert(occurs_at(b, pat, from));
        } else {
            assert(s.subrange(at, at + pat.len())[a.len() - at] == ' ');
            assert(pat[a.len() - at] == ' ');
        }
    }
}

/// A text without a match of the pattern is left as it is.
pub proof fn replacing_nothing_keeps_text(s: Seq<char>, pat: Seq<char>, with: Seq<char>)
    requires
        pat.len() > 0,
        forall|at: int| !#[trigger] occurs_at(s, pat, at),
    ensures
        replaced(s, pat, with) == s,
    decreases s.len(),
{
    if s.len() >= pat.len() {
        let rest = s.skip(1);
        assert(!occurs_at(s, pat, 0));
        assert(s.subrange(0, pat.len() as int) =~= s.take(pat.len() as int));
        assert forall|at: int| !#[trigger] occurs_at(rest, pat, at) by {
            assert(!occurs_at(s, pat, at + 1));
            if 0 <= at && at + pat.len() <= rest.len() {
                assert(rest.subrange(at, at + pat.len()) =~= s.subrange(
                    at + 1,
                    at + 1 + pat.len(),
                ));
            }
        }
        replacing_nothing_keeps_text(rest, pat, with);
        assert(seq![s[0]] + rest =~= s);
    }
}

/// Whether the standard library takes a character to be white space.
pub uninterp spec fn whitespace(c: char) -> bool;

/// `char::is_whitespace` tells whether the character has the Unicode property
/// White_Space. Of the ASCII characters these are the space and those from
/// tab to carriage return.
pub assume_specification[ char::is_whitespace ](c: char) -> (r: bool)
    ensures
        r == whitespace(c),
        (c as u32) < 128 ==> (r <==> (c == ' ' || 9 <= c as u32 <= 13)),
;

/// `s` without the white space at its two ends.
pub open spec fn trimmed(s: Seq<char>) -> Seq<char>
    decreases s.len(),
{
    if s.len() == 0 {
        s
    } else if whitespace(s[0]) {
        trimmed(s.skip(1))
    } else if whitespace(s.last()) {
        trimmed(s.drop_last())
    } else {
        s
    }
}

/// The position of the first character that is no white space.
fn front_of(text: &Vec<char>) -> (from: usize)
    ensures
        from <= text@.len(),
        from < text@.len() ==> !whitespace(text@[from as int]),
        trimmed(text@) == trimmed(text@.skip(from as int)),
{
    let mut from: usize = 0;
    assert(text@.skip(0) =~= text@);
    while from < text.len()
        invariant
            from <= text@.len(),
            trimmed(text@) == trimmed(text@.skip(from as int)),
        decreases text.len() - from,
    {
        if !text[from].is_whitespace() {
            return from;
        }
        assert(text@.skip(from as int).skip(1) =~= text@.skip(from + 1));
        from += 1;
    }
    from
}

/// The position behind the last character that is no white space, given that
/// the one at `from` is none.
fn back_of(text: &Vec<char>, from: usize) -> (to: usize)
    requires
        from <= text@.len(),
        from < text@.len() ==> !whitespace(text@[from as int]),
    ensures
        from <= to <= text@.len(),
        trimmed(text@.skip(from as int)) == text@.subrange(from as int, to as int),
{
    let mut to: usize = text.len();
    assert(text@.subrange(from as int, to as int) =~= text@.skip(from as int));
    while from < to
        invariant
            from <= to <= text@.len(),
            from < to ==> !whitespace(text@[from as int]),
            trimmed(text@.skip(from as int)) == trimmed(text@.subrange(from as int, to as int)),
        decreases to - from,
    {
        if !text[to - 1].is_whitespace() {
            return to;
        }
        assert(text@.subrange(from as int, to as int).drop_last() =~= text@.subrange(
            from as int,
            to - 1,
        ));
        to -= 1;
    }
    to
}

/// Takes the white space off both ends of `s`.
pub fn trim_text(s: &str) -> (r: String)
    ensures
        r@ == trimmed(s@),
{
    let text = chars_of(s);
    let from: usize = front_of(&text);
    let to: usize = back_of(&text, from);
    text_between(&text, from, to)
}

/// The lower-case form of a string, as the standard library gives it.
pub uninterp spec fn lowercase(s: Seq<char>) -> Seq<char>;

/// The lower-case form of an ASCII character.
pub open spec fn ascii_lower(c: char) -> char {
    if 'A' <= c <= 'Z' {
        (c as u32 + 32) as char
    } else {
        c
    }
}

/// `str::to_lowercase` gives the Unicode lower-case form of a string. On ASCII
/// text that is the lower-case form of each character.
pub assume_specification[ str::to_lowercase ](s: &str) -> (r: std::string::String)
    ensures
        r@ == lowercase(s@),
        (forall|i: int| 0 <= i < s@.len() ==> (#[trigger] s@[i] as u32) < 128) ==> r@
            == s@.map_values(|c: char| ascii_lower(c)),
;

/// A string in quotes, with its special characters escaped, as the standard
/// library's debug format writes it.
pub uninterp spec fn debug_text(s: Seq<char>) -> Seq<char>;

/// The debug format of `str`. What it escapes is left unsaid.
#[verifier::external_body]
pub(crate) fn debug_quoted(s: &str) -> (r: String)
    ensures
        r@ == debug_text(s@),
{
    format!("{s:?}")
}

/// The character that stands for a decimal digit.
pub open spec fn digit(d: nat) -> char {
    ('0' as u32 + d) as char
}

/// The decimal digits of a number, without leading zeros.
pub open spec fn decimal(n: nat) -> Seq<char>
    decreases n,
{
    if n < 10 {
        seq![digit(n)]
    } else {
        decimal(n / 10).push(digit(n % 10))
    }
}

/// Different numbers have different decimal digits.
pub proof fn decimals_tell_apart(a: nat, b: nat)
    ensures
        decimal(a) == decimal(b) ==> a == b,
    decreases a,
{
    if decimal(a) == decimal(b) {
        assert(decimal(a).last() == digit(a % 10));
        assert(decimal(b).last() == digit(b % 10));
        if a >= 10 && b >= 10 {
            assert(decimal(a).drop_last() =~= decimal(a / 10));
            assert(decimal(b).drop_last() =~= decimal(b / 10));
            decimals_tell_apart(a / 10, b / 10);
        } else if a >= 10 {
            assert(decimal(a / 10).len() > 0);
        } else if b >= 10 {
            assert(decimal(b / 10).len() > 0);
        }
    }
}

/// Writes a number in decimal digits.
pub fn decimal_text(n: usize) -> (r: String)
    ensures
        r@ == decimal(n as nat),
    decreases n,
{
    let last: char = (48 + (n % 10) as u8) as char;
    let mut r = if n < 10 {
        String::new()
    } else {
        decimal_text(n / 10)
    };
    r.push(last);
    assert(r@ =~= decimal(n as nat));
    r
}

/// A pattern occurs at a position exactly if it fits in there and all its
/// characters stand there.
pub proof fn occurrences_are_character_by_character(s: Seq<char>, pat: Seq<char>, at: int)
    ensures
        occurs_at(s, pat, at) <==> {
            &&& 0 <= at
            &&& at + pat.len() <= s.len()
            &&& forall|i: int| 0 <= i < pat.len() ==> s[at + i] == #[trigger] pat[i]
        },
{
    if 0 <= at && at + pat.len() <= s.len() {
        let part = s.subrange(at, at + pat.len());
        if forall|i: int| 0 <= i < pat.len() ==> s[at + i] == #[trigger] pat[i] {
            assert(part =~= pat);
        }
        if part == pat {
            assert forall|i: int| 0 <= i < pat.len() implies s[at + i] == #[trigger] pat[i] by {
                assert(part[i] == s[at + i]);
            }
        }
    }
}

/// What stands before the first match is kept, the match gives way to the new
/// text, and the rest is treated in the same way.
pub proof fn first_match_gives_way(a: Seq<char>, b: Seq<char>, pat: Seq<char>, with: Seq<char>)
    requires
        pat.len() > 0,
        forall|at: int| 0 <= at < a.len() ==> !#[trigger] occurs_at(a + pat + b, pat, at),
    ensures
        replaced(a + pat + b, pat, with) == a + with + replaced(b, pat, with),
    decreases a.len(),
{
    let s = a + pat + b;
    if a.len() == 0 {
        assert(s.take(pat.len() as int) =~= pat);
        assert(s.skip(pat.len() as int) =~= b);
        assert(a + with + replaced(b, pat, with) =~= with + replaced(b, pat, with));
    } else {
        let rest = a.skip(1);
        assert(!occurs_at(s, pat, 0));
        assert(s.subrange(0, pat.len() as int) =~= s.take(pat.len() as int));
        assert(s.skip(1) =~= rest + pat + b);
        assert forall|at: int| 0 <= at < rest.len() implies !#[trigger] occurs_at(
            rest + pat + b,
            pat,
            at,
        ) by {
            assert(!occurs_at(s, pat, at + 1));
            assert((rest + pat + b).subrange(at, at + pat.len()) =~= s.subrange(
                at + 1,
                at + 1 + pat.len(),
            ));
        }
        first_match_gives_way(rest, b, pat, with);
        assert(seq![s[0]] + (rest + with + replaced(b, pat, with)) =~= a + with + replaced(
            b,
            pat,
            with,
        ));
    }
}

/// An empty pattern puts the new text before each character and at the end.
pub proof fn empty_pattern_matches_everywhere(c: char, s: Seq<char>, with: Seq<char>)
    ensures
        replaced(Seq::empty(), Seq::empty(), with) == with,
        replaced(seq![c] + s, Seq::empty(), with) == with + seq![c] + replaced(
            s,
            Seq::empty(),
            with,
        ),
{
    assert((seq![c] + s).skip(1) =~= s);
}

/// Trimming takes white space off the two ends, all of it and nothing else.
pub proof fn trimming_takes_white_space(s: Seq<char>) -> (ends: (Seq<char>, Seq<char>))
    ensures
        s == ends.0 + trimmed(s) + ends.1,
        forall|i: int| 0 <= i < ends.0.len() ==> whitespace(#[trigger] ends.0[i]),
        forall|i: int| 0 <= i < ends.1.len() ==> whitespace(#[trigger] ends.1[i]),
        trimmed(s).len() > 0 ==> !whitespace(trimmed(s)[0]) && !whitespace(trimmed(s).last()),
    decreases s.len(),
{
    let none = Seq::<char>::empty();
    if s.len() == 0 {
        assert(s =~= none + trimmed(s) + none);
        (none, none)
    } else if whitespace(s[0]) {
        let (a, b) = trimming_takes_white_space(s.skip(1));
        let t = trimmed(s);
        assert(s =~= seq![s[0]] + s.skip(1));
        assert(s =~= (seq![s[0]] + a) + t + b);
        (seq![s[0]] + a, b)
    } else if whitespace(s.last()) {
        let (a, b) = trimming_takes_white_space(s.drop_last());
        let t = trimmed(s);
        assert(s =~= s.drop_last() + seq![s.last()]);
        assert(s =~= a + t + (b + seq![s.last()]));
        (a, b + seq![s.last()])
    } else {
        assert(s =~= none + trimmed(s) + none);
        (none, none)
    }
}

/// The number that decimal digits stand for.
pub open spec fn number_of(digits: Seq<char>) -> int
    decreases digits.len(),
{
    if digits.len() == 0 {
        0
    } else {
        10 * number_of(digits.drop_last()) + (digits.last() as int - '0' as int)
    }
}

/// The decimal form of a number is made of digits, stands for the number, and has
/// no leading zero.
pub proof fn decimals_stand_for_their_numbers(n: nat)
    ensures
        decimal(n).len() > 0,
        forall|i: int| 0 <= i < decimal(n).len() ==> '0' <= #[trigger] decimal(n)[i] <= '9',
        number_of(decimal(n)) == n,
        n > 0 ==> decimal(n)[0] != '0',
        n == 0 ==> decimal(n).len() == 1,
    decreases n,
{
    reveal_with_fuel(number_of, 2);
    if n >= 10 {
        decimals_stand_for_their_numbers(n / 10);
        assert(decimal(n).drop_last() =~= decimal(n / 10));
    } else {
        assert(decimal(n).drop_last() =~= Seq::<char>::empty());
    }
}

} // verus!
