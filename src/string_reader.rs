use vstd::prelude::*;
use crate::exceptions::{CommandSyntaxException, SyntaxErrorKind, syntax_error};

verus! {

/// A character that may stand in an unquoted word.
pub open spec fn is_unquoted_char(c: char) -> bool {
    ('0' <= c && c <= '9') || ('A' <= c && c <= 'Z') || ('a' <= c && c <= 'z') || c == '_'
        || c == '-' || c == '.' || c == '+'
}

/// A character that may stand in a number.
pub open spec fn is_number_char(c: char) -> bool {
    ('0' <= c && c <= '9') || c == '.' || c == '-'
}

pub open spec fn is_digit(c: char) -> bool {
    '0' <= c && c <= '9'
}

/// The end of the unquoted word that starts at `i`.
pub open spec fn token_end(s: Seq<char>, i: int) -> int
    decreases s.len() - i,
{
    if i < 0 || i >= s.len() || !is_unquoted_char(s[i]) {
        i
    } else {
        token_end(s, i + 1)
    }
}

/// The end of the run of number characters that starts at `i`.
pub open spec fn number_end(s: Seq<char>, i: int) -> int
    decreases s.len() - i,
{
    if i < 0 || i >= s.len() || !is_number_char(s[i]) {
        i
    } else {
        number_end(s, i + 1)
    }
}

/// The end of the run of characters other than a space that starts at `i`.
pub open spec fn word_end(s: Seq<char>, i: int) -> int
    decreases s.len() - i,
{
    if i < 0 || i >= s.len() || s[i] == ' ' {
        i
    } else {
        word_end(s, i + 1)
    }
}

pub open spec fn all_digits(s: Seq<char>) -> bool {
    forall|j: int| 0 <= j < s.len() ==> is_digit(#[trigger] s[j])
}

/// The value of a string of decimal digits.
pub open spec fn digits_value(s: Seq<char>) -> int
    decreases s.len(),
{
    if s.len() == 0 {
        0
    } else {
        digits_value(s.drop_last()) * 10 + (s.last() as int - '0' as int)
    }
}

/// The integer that a text writes: digits, with an optional leading minus sign.
pub open spec fn int_text_value(s: Seq<char>) -> Option<int> {
    if s.len() > 0 && all_digits(s) {
        Some(digits_value(s))
    } else if s.len() > 1 && s[0] == '-' && all_digits(s.skip(1)) {
        Some(-digits_value(s.skip(1)))
    } else {
        None
    }
}

pub open spec fn fits_i32(v: int) -> bool {
    i32::MIN <= v <= i32::MAX
}

/// Reading an integer at `i`: its value and where it ends, or why it fails.
pub open spec fn read_int_spec(s: Seq<char>, i: int) -> Result<(i32, int), CommandSyntaxException> {
    let e = number_end(s, i);
    if e == i {
        Err(syntax_error(SyntaxErrorKind::ReaderExpectedInt, i))
    } else {
        match int_text_value(s.subrange(i, e)) {
            Some(v) => if fits_i32(v) {
                Ok((v as i32, e))
            } else {
                Err(syntax_error(SyntaxErrorKind::ReaderInvalidInt { end: e as usize }, i))
            },
            None => Err(syntax_error(SyntaxErrorKind::ReaderInvalidInt { end: e as usize }, i)),
        }
    }
}

/// Reading a boolean at `i`: its value and where it ends, or why it fails.
pub open spec fn read_bool_spec(s: Seq<char>, i: int) -> Result<(bool, int), CommandSyntaxException> {
    let e = token_end(s, i);
    let w = s.subrange(i, e);
    if e == i {
        Err(syntax_error(SyntaxErrorKind::ReaderExpectedBool, i))
    } else if w == seq!['t', 'r', 'u', 'e'] {
        Ok((true, e))
    } else if w == seq!['f', 'a', 'l', 's', 'e'] {
        Ok((false, e))
    } else {
        Err(syntax_error(SyntaxErrorKind::ReaderInvalidBool { end: e as usize }, i))
    }
}

/// Reading the body of a string quoted with `q` from `i`, with `acc` read so far:
/// a backslash escapes the quote or a backslash, and the closing quote ends it.
pub open spec fn quoted_body(s: Seq<char>, i: int, q: char, acc: Seq<char>) -> Result<
    (Seq<char>, int),
    CommandSyntaxException,
>
    decreases s.len() - i,
{
    if i < 0 || i >= s.len() {
        Err(syntax_error(SyntaxErrorKind::ReaderExpectedEndOfQuote, s.len() as int))
    } else if s[i] == '\\' {
        if i + 1 >= s.len() {
            Err(syntax_error(SyntaxErrorKind::ReaderExpectedEndOfQuote, s.len() as int))
        } else if s[i + 1] == q || s[i + 1] == '\\' {
            quoted_body(s, i + 2, q, acc.push(s[i + 1]))
        } else {
            Err(syntax_error(SyntaxErrorKind::ReaderInvalidEscape { character: s[i + 1] }, i + 1))
        }
    } else if s[i] == q {
        Ok((acc, i + 1))
    } else {
        quoted_body(s, i + 1, q, acc.push(s[i]))
    }
}

/// Reading a quoted string at `i`: its unescaped text and where it ends, or why it
/// fails. At the end of the input it is empty.
pub open spec fn read_quoted_spec(s: Seq<char>, i: int) -> Result<(Seq<char>, int), CommandSyntaxException> {
    if i >= s.len() {
        Ok((Seq::empty(), i))
    } else if s[i] == '"' || s[i] == '\'' {
        quoted_body(s, i + 1, s[i], Seq::empty())
    } else {
        Err(syntax_error(SyntaxErrorKind::ReaderExpectedStartOfQuote, i))
    }
}

/// A quoted string that is read ends after where its body began, inside the input.
pub proof fn lemma_quoted_body_bounds(s: Seq<char>, i: int, q: char, acc: Seq<char>)
    requires
        0 <= i,
    ensures
        quoted_body(s, i, q, acc) matches Ok((_, e)) ==> i < e <= s.len(),
    decreases s.len() - i,
{
    if i < s.len() {
        if s[i] == '\\' {
            if i + 1 < s.len() && (s[i + 1] == q || s[i + 1] == '\\') {
                lemma_quoted_body_bounds(s, i + 2, q, acc.push(s[i + 1]));
            }
        } else if s[i] != q {
            lemma_quoted_body_bounds(s, i + 1, q, acc.push(s[i]));
        }
    }
}

pub proof fn lemma_token_end_bounds(s: Seq<char>, i: int)
    requires
        0 <= i <= s.len(),
    ensures
        i <= token_end(s, i) <= s.len(),
    decreases s.len() - i,
{
    if i < s.len() && is_unquoted_char(s[i]) {
        lemma_token_end_bounds(s, i + 1);
    }
}

pub proof fn lemma_number_end_bounds(s: Seq<char>, i: int)
    requires
        0 <= i <= s.len(),
    ensures
        i <= number_end(s, i) <= s.len(),
        forall|j: int| i <= j < number_end(s, i) ==> is_number_char(#[trigger] s[j]),
    decreases s.len() - i,
{
    if i < s.len() && is_number_char(s[i]) {
        lemma_number_end_bounds(s, i + 1);
    }
}

pub proof fn lemma_word_end_bounds(s: Seq<char>, i: int)
    requires
        0 <= i <= s.len(),
    ensures
        i <= word_end(s, i) <= s.len(),
        word_end(s, i) < s.len() ==> s[word_end(s, i)] == ' ',
    decreases s.len() - i,
{
    if i < s.len() && s[i] != ' ' {
        lemma_word_end_bounds(s, i + 1);
    }
}

proof fn lemma_digits_value_nonneg(s: Seq<char>)
    requires
        all_digits(s),
    ensures
        digits_value(s) >= 0,
    decreases s.len(),
{
    if s.len() > 0 {
        assert(all_digits(s.drop_last()));
        lemma_digits_value_nonneg(s.drop_last());
        assert(is_digit(s[s.len() - 1]));
    }
}

/// A longer string of digits is worth at least as much as its prefix.
proof fn lemma_digits_value_prefix(s: Seq<char>, k: int)
    requires
        all_digits(s),
        0 <= k <= s.len(),
    ensures
        digits_value(s) >= digits_value(s.subrange(0, k)),
    decreases s.len(),
{
    if k < s.len() {
        let p = s.drop_last();
        assert(all_digits(p));
        assert(p.subrange(0, k) =~= s.subrange(0, k));
        lemma_digits_value_prefix(p, k);
        lemma_digits_value_nonneg(p);
        assert(is_digit(s[s.len() - 1]));
    } else {
        assert(s.subrange(0, k) =~= s);
    }
}

/// The value of the digits `s[from..to]`, if it is at most 2^31.
fn digits_value_bounded(s: &Vec<char>, from: usize, to: usize) -> (r: Option<i64>)
    requires
        from <= to <= s@.len(),
        all_digits(s@.subrange(from as int, to as int)),
    ensures
        r is Some <==> digits_value(s@.subrange(from as int, to as int)) <= 0x8000_0000,
        r is Some ==> 0 <= r->0 <= 0x8000_0000,
        r is Some ==> r->0 == digits_value(s@.subrange(from as int, to as int)),
{
    let ghost d = s@.subrange(from as int, to as int);
    let mut acc: i64 = 0;
    let mut j: usize = from;
    while j < to
        invariant
            from <= j <= to <= s@.len(),
            d == s@.subrange(from as int, to as int),
            all_digits(d),
            acc == digits_value(s@.subrange(from as int, j as int)),
            0 <= acc <= 0x8000_0000,
        decreases to - j,
    {
        let c = s[j];
        assert(d[j - from] == c);
        assert(is_digit(c));
        let dv = (c as u32 - '0' as u32) as i64;
        let next = acc * 10 + dv;
        proof {
            let pre = s@.subrange(from as int, j as int + 1);
            assert(pre.drop_last() =~= s@.subrange(from as int, j as int));
            assert(d.subrange(0, j - from + 1) =~= pre);
        }
        if next > 0x8000_0000 {
            proof {
                lemma_digits_value_prefix(d, j - from + 1);
            }
            return None;
        }
        acc = next;
        j = j + 1;
    }
    proof {
        lemma_digits_value_nonneg(d);
    }
    Some(acc)
}

/// A position in a line of input that reading moves forward.
#[derive(Clone, Debug)]
pub struct StringReader {
    pub string: Vec<char>,
    pub cursor: usize,
}

impl StringReader {
    pub open spec fn wf(&self) -> bool {
        self.cursor <= self.string@.len()
    }

    pub fn new(s: &str) -> (r: StringReader)
        ensures
            r.string@ == s@,
            r.cursor == 0,
            r.wf(),
    {
        StringReader { string: crate::text::chars_of(s), cursor: 0 }
    }

    pub fn from_chars(string: Vec<char>, cursor: usize) -> (r: StringReader)
        requires
            cursor <= string@.len(),
        ensures
            r.string == string,
            r.cursor == cursor,
            r.wf(),
    {
        StringReader { string, cursor }
    }

    pub fn remaining_length(&self) -> (r: usize)
        requires
            self.wf(),
        ensures
            r == self.string@.len() - self.cursor,
    {
        self.string.len() - self.cursor
    }

    pub fn can_read_n(&self, n: usize) -> (r: bool)
        requires
            self.wf(),
        ensures
            r == (self.cursor + n <= self.string@.len()),
    {
        n <= self.string.len() - self.cursor
    }

    pub fn can_read(&self) -> (r: bool)
        requires
            self.wf(),
        ensures
            r == (self.cursor < self.string@.len()),
    {
        self.can_read_n(1)
    }

    pub fn peek(&self) -> (r: char)
        requires
            self.wf(),
            self.cursor < self.string@.len(),
        ensures
            r == self.string@[self.cursor as int],
    {
        self.string[self.cursor]
    }

    pub fn skip(&mut self)
        requires
            old(self).wf(),
            old(self).cursor < old(self).string@.len(),
        ensures
            final(self).wf(),
            final(self).string == old(self).string,
            final(self).cursor == old(self).cursor + 1,
    {
        let n = self.string.len();
        assert(self.cursor < n);
        self.cursor = self.cursor + 1;
    }

    /// Moves past the spaces at the cursor.
    pub fn skip_whitespace(&mut self)
        requires
            old(self).wf(),
        ensures
            final(self).wf(),
            final(self).string == old(self).string,
            old(self).cursor <= final(self).cursor,
            forall|j: int|
                old(self).cursor <= j < final(self).cursor ==> final(self).string@[j] == ' ',
            final(self).cursor < final(self).string@.len() ==> final(self).string@[final(self).cursor as int]
                != ' ',
    {
        while self.cursor < self.string.len() && self.string[self.cursor] == ' '
            invariant
                self.wf(),
                self.string == old(self).string,
                old(self).cursor <= self.cursor,
                forall|j: int| old(self).cursor <= j < self.cursor ==> self.string@[j] == ' ',
            decreases self.string@.len() - self.cursor,
        {
            self.cursor = self.cursor + 1;
        }
    }

    /// The end of the unquoted word at the cursor.
    pub fn scan_token(&self) -> (r: usize)
        requires
            self.wf(),
        ensures
            r == token_end(self.string@, self.cursor as int),
            self.cursor <= r <= self.string@.len(),
    {
        let mut i = self.cursor;
        while i < self.string.len() && is_unquoted(self.string[i])
            invariant
                self.cursor <= i <= self.string@.len(),
                token_end(self.string@, self.cursor as int) == token_end(self.string@, i as int),
            decreases self.string@.len() - i,
        {
            i = i + 1;
        }
        i
    }

    /// The end of the run of characters other than a space at the cursor.
    pub fn scan_word(&self) -> (r: usize)
        requires
            self.wf(),
        ensures
            r == word_end(self.string@, self.cursor as int),
            self.cursor <= r <= self.string@.len(),
    {
        let mut i = self.cursor;
        while i < self.string.len() && self.string[i] != ' '
            invariant
                self.cursor <= i <= self.string@.len(),
                word_end(self.string@, self.cursor as int) == word_end(self.string@, i as int),
            decreases self.string@.len() - i,
        {
            i = i + 1;
        }
        i
    }

    /// Reads an unquoted word, which may be empty.
    pub fn read_unquoted_string(&mut self) -> (r: Vec<char>)
        requires
            old(self).wf(),
        ensures
            final(self).wf(),
            final(self).string == old(self).string,
            final(self).cursor == token_end(old(self).string@, old(self).cursor as int),
            r@ == old(self).string@.subrange(old(self).cursor as int, final(self).cursor as int),
    {
        let end = self.scan_token();
        let r = copy_range(&self.string, self.cursor, end);
        self.cursor = end;
        r
    }

    /// Reads an integer; on failure the cursor does not move.
    pub fn read_int(&mut self) -> (r: Result<i32, CommandSyntaxException>)
        requires
            old(self).wf(),
        ensures
            final(self).wf(),
            final(self).string == old(self).string,
            match read_int_spec(old(self).string@, old(self).cursor as int) {
                Ok((v, e)) => r == Ok::<i32, CommandSyntaxException>(v) && final(self).cursor == e,
                Err(x) => r == Err::<i32, CommandSyntaxException>(x) && final(self).cursor
                    == old(self).cursor,
            },
    {
        let start = self.cursor;
        let ghost s = self.string@;
        let mut i = start;
        while i < self.string.len() && is_number(self.string[i])
            invariant
                start <= i <= s.len(),
                s == self.string@,
                self.cursor == start,
                self.wf(),
                self.string == old(self).string,
                *old(self) == *self,
                number_end(s, start as int) == number_end(s, i as int),
            decreases s.len() - i,
        {
            i = i + 1;
        }
        proof {
            lemma_number_end_bounds(s, start as int);
        }
        if i == start {
            return Err(CommandSyntaxException::new(SyntaxErrorKind::ReaderExpectedInt, start));
        }
        let invalid = CommandSyntaxException::new(SyntaxErrorKind::ReaderInvalidInt { end: i }, start);
        let ghost t = s.subrange(start as int, i as int);
        let negative = self.string[start] == '-';
        let from = if negative { start + 1 } else { start };
        if from == i {
            return Err(invalid);
        }
        let mut k = from;
        while k < i
            invariant
                from <= k <= i <= s.len(),
                start < i,
                s == self.string@,
                self.cursor == start,
                self.wf(),
                *old(self) == *self,
                i == number_end(s, start as int),
                t == s.subrange(start as int, i as int),
                negative == (s[start as int] == '-'),
                from == if negative { start + 1 } else { start as int },
                invalid == syntax_error(SyntaxErrorKind::ReaderInvalidInt { end: i }, start as int),
                forall|j: int| from <= j < k ==> is_digit(#[trigger] s[j]),
            decreases i - k,
        {
            let c = self.string[k];
            if !('0' <= c && c <= '9') {
                proof {
                    assert(!is_digit(c));
                    if negative {
                        assert(t.skip(1)[k - from] == c);
                        assert(!all_digits(t.skip(1)));
                    }
                    assert(t[k - start] == c);
                    assert(!all_digits(t));
                }
                return Err(invalid);
            }
            k = k + 1;
        }
        let ghost ds = s.subrange(from as int, i as int);
        proof {
            assert(all_digits(ds));
            if negative {
                assert(t.skip(1) =~= ds);
                assert(!is_digit(t[0]));
                assert(!all_digits(t));
            } else {
                assert(t =~= ds);
            }
        }
        match digits_value_bounded(&self.string, from, i) {
            None => Err(invalid),
            Some(v) => {
                if negative {
                    self.cursor = i;
                    Ok((0 - v) as i32)
                } else if v > 0x7fff_ffff {
                    Err(invalid)
                } else {
                    self.cursor = i;
                    Ok(v as i32)
                }
            },
        }
    }

    /// Reads `true` or `false`; on failure the cursor does not move.
    pub fn read_boolean(&mut self) -> (r: Result<bool, CommandSyntaxException>)
        requires
            old(self).wf(),
        ensures
            final(self).wf(),
            final(self).string == old(self).string,
            match read_bool_spec(old(self).string@, old(self).cursor as int) {
                Ok((v, e)) => r == Ok::<bool, CommandSyntaxException>(v) && final(self).cursor == e,
                Err(x) => r == Err::<bool, CommandSyntaxException>(x) && final(self).cursor
                    == old(self).cursor,
            },
    {
        let start = self.cursor;
        let end = self.scan_token();
        let ghost w = self.string@.subrange(start as int, end as int);
        if end == start {
            return Err(CommandSyntaxException::new(SyntaxErrorKind::ReaderExpectedBool, start));
        }
        let n = end - start;
        if n == 4 && self.string[start] == 't' && self.string[start + 1] == 'r' && self.string[start
            + 2] == 'u' && self.string[start + 3] == 'e' {
            assert(w =~= seq!['t', 'r', 'u', 'e']);
            self.cursor = end;
            return Ok(true);
        }
        if n == 5 && self.string[start] == 'f' && self.string[start + 1] == 'a' && self.string[start
            + 2] == 'l' && self.string[start + 3] == 's' && self.string[start + 4] == 'e' {
            assert(w =~= seq!['f', 'a', 'l', 's', 'e']);
            self.cursor = end;
            return Ok(false);
        }
        proof {
            let tw = seq!['t', 'r', 'u', 'e'];
            let fw = seq!['f', 'a', 'l', 's', 'e'];
            assert(tw.len() == 4 && tw[0] == 't' && tw[1] == 'r' && tw[2] == 'u' && tw[3] == 'e');
            assert(fw.len() == 5 && fw[0] == 'f' && fw[1] == 'a' && fw[2] == 'l' && fw[3] == 's'
                && fw[4] == 'e');
            assert(w.len() == n);
            if w == tw {
                assert(w[0] == self.string@[start as int]);
                assert(w[1] == self.string@[start + 1]);
                assert(w[2] == self.string@[start + 2]);
                assert(w[3] == self.string@[start + 3]);
            }
            if w == fw {
                assert(w[0] == self.string@[start as int]);
                assert(w[1] == self.string@[start + 1]);
                assert(w[2] == self.string@[start + 2]);
                assert(w[3] == self.string@[start + 3]);
                assert(w[4] == self.string@[start + 4]);
            }
        }
        Err(CommandSyntaxException::new(SyntaxErrorKind::ReaderInvalidBool { end }, start))
    }

    /// Reads a string in double or single quotes, undoing escapes; on failure the
    /// cursor does not move.
    pub fn read_quoted_string(&mut self) -> (r: Result<Vec<char>, CommandSyntaxException>)
        requires
            old(self).wf(),
        ensures
            final(self).wf(),
            final(self).string == old(self).string,
            match read_quoted_spec(old(self).string@, old(self).cursor as int) {
                Ok((v, e)) => r matches Ok(t) && t@ == v && final(self).cursor == e,
                Err(x) => r matches Err(y) && y == x && final(self).cursor == old(self).cursor,
            },
    {
        let ghost s = self.string@;
        let n = self.string.len();
        let start = self.cursor;
        let mut acc: Vec<char> = Vec::new();
        if start >= n {
            assert(acc@ =~= Seq::<char>::empty());
            return Ok(acc);
        }
        let q = self.string[start];
        if q != '"' && q != '\'' {
            return Err(CommandSyntaxException::new(SyntaxErrorKind::ReaderExpectedStartOfQuote, start));
        }
        let mut i = start + 1;
        assert(acc@ =~= Seq::<char>::empty());
        loop
            invariant
                s == self.string@,
                n == s.len(),
                self.wf(),
                self.string == old(self).string,
                self.cursor == old(self).cursor,
                start == old(self).cursor,
                start < n,
                q == s[start as int],
                start < i <= n + 1,
                read_quoted_spec(s, start as int) == quoted_body(s, i as int, q, acc@),
            decreases n + 1 - i,
        {
            if i >= n {
                return Err(CommandSyntaxException::new(SyntaxErrorKind::ReaderExpectedEndOfQuote, n));
            }
            let c = self.string[i];
            if c == '\\' {
                if i + 1 >= n {
                    return Err(CommandSyntaxException::new(SyntaxErrorKind::ReaderExpectedEndOfQuote, n));
                }
                let d = self.string[i + 1];
                if d == q || d == '\\' {
                    acc.push(d);
                    i = i + 2;
                } else {
                    return Err(
                        CommandSyntaxException::new(
                            SyntaxErrorKind::ReaderInvalidEscape { character: d },
                            i + 1,
                        ),
                    );
                }
            } else if c == q {
                self.cursor = i + 1;
                return Ok(acc);
            } else {
                acc.push(c);
                i = i + 1;
            }
        }
    }

    /// Reads the rest of the line.
    pub fn read_remaining(&mut self) -> (r: Vec<char>)
        requires
            old(self).wf(),
        ensures
            final(self).wf(),
            final(self).string == old(self).string,
            final(self).cursor == old(self).string@.len(),
            r@ == old(self).string@.subrange(old(self).cursor as int, old(self).string@.len() as int),
    {
        let r = copy_range(&self.string, self.cursor, self.string.len());
        self.cursor = self.string.len();
        r
    }
}

fn is_unquoted(c: char) -> (r: bool)
    ensures
        r == is_unquoted_char(c),
{
    ('0' <= c && c <= '9') || ('A' <= c && c <= 'Z') || ('a' <= c && c <= 'z') || c == '_' || c
        == '-' || c == '.' || c == '+'
}

fn is_number(c: char) -> (r: bool)
    ensures
        r == is_number_char(c),
{
    ('0' <= c && c <= '9') || c == '.' || c == '-'
}

/// The characters `s[from..to]`.
pub fn copy_range(s: &Vec<char>, from: usize, to: usize) -> (r: Vec<char>)
    requires
        from <= to <= s@.len(),
    ensures
        r@ == s@.subrange(from as int, to as int),
{
    let mut r: Vec<char> = Vec::new();
    let mut i = from;
    while i < to
        invariant
            from <= i <= to <= s@.len(),
            r@ == s@.subrange(from as int, i as int),
        decreases to - i,
    {
        r.push(s[i]);
        i = i + 1;
        assert(r@ =~= s@.subrange(from as int, i as int));
    }
    r
}

} // verus!
