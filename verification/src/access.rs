//! Kind tests and JSON Pointer navigation.
use vstd::prelude::*;
use std::ops::Index;
use crate::datavalue::{DataValue, ValueView};
use crate::text::chars_of;

verus! {

/// The text with each `~` that is followed by `second` replaced, together
/// with it, by `with`; read from the left, one pair after the other.
pub open spec fn replace_pair(s: Seq<char>, second: char, with: char) -> Seq<char>
    decreases s.len(),
{
    if s.len() == 0 {
        Seq::empty()
    } else if s.len() >= 2 && s[0] == '~' && s[1] == second {
        seq![with] + replace_pair(s.skip(2), second, with)
    } else {
        seq![s[0]] + replace_pair(s.skip(1), second, with)
    }
}

/// A reference token without its escapes: first every `~1` becomes `/`,
/// then every `~0` becomes `~`.
pub open spec fn unescape(token: Seq<char>) -> Seq<char> {
    replace_pair(replace_pair(token, '1', '/'), '0', '~')
}

/// Whether `c` is one of the ten decimal digits.
pub open spec fn is_digit(c: char) -> bool {
    '0' <= c <= '9'
}

/// The number that a decimal digit stands for.
pub open spec fn digit_value(c: char) -> nat {
    (c as u32 - '0' as u32) as nat
}

/// The number that a text of decimal digits stands for.
pub open spec fn digits_value(s: Seq<char>) -> nat
    decreases s.len(),
{
    if s.len() == 0 {
        0
    } else {
        digits_value(s.drop_last()) * 10 + digit_value(s.last())
    }
}

/// A token without the `+` that may stand in front of an index.
pub open spec fn unsigned_part(token: Seq<char>) -> Seq<char> {
    if token.len() > 0 && token[0] == '+' {
        token.skip(1)
    } else {
        token
    }
}

/// The index that a token stands for: the number of its decimal digits,
/// of which there is at least one, after an optional `+`.
pub open spec fn parse_index(token: Seq<char>) -> Option<nat> {
    let digits = unsigned_part(token);
    if digits.len() > 0 && forall|i: int| 0 <= i < digits.len() ==> is_digit(#[trigger] digits[i]) {
        Some(digits_value(digits))
    } else {
        None
    }
}

/// The length of the first token of `rest`: the number of characters
/// before its first `/`, or all of them.
pub open spec fn token_len(rest: Seq<char>) -> nat
    decreases rest.len(),
{
    if rest.len() == 0 || rest[0] == '/' {
        0
    } else {
        1 + token_len(rest.skip(1))
    }
}

impl ValueView {
    /// One step of a pointer: the value under key `token` in an object, the
    /// element at the index that `token` stands for in an array; nothing
    /// where there is none, and nothing in any other value.
    pub open spec fn step(self, token: Seq<char>) -> Option<ValueView> {
        match self {
            ValueView::Object(_) => self.get(token),
            ValueView::Array(_) => match parse_index(token) {
                Some(n) => self.get_index(n as int),
                None => None,
            },
            _ => None,
        }
    }

    /// Follows the tokens of `rest`, which are separated by `/`, each
    /// without its escapes, one step after the other.
    pub open spec fn walk(self, rest: Seq<char>) -> Option<ValueView>
        decreases rest.len(),
    {
        let n = token_len(rest);
        match self.step(unescape(rest.take(n as int))) {
            None => None,
            Some(child) => if n >= rest.len() {
                Some(child)
            } else {
                child.walk(rest.skip(n as int + 1))
            },
        }
    }

    /// The value that a JSON Pointer names: this value for the empty
    /// pointer, nothing for a pointer that does not begin with `/`, else
    /// what the walk along its tokens finds.
    pub open spec fn pointer(self, path: Seq<char>) -> Option<ValueView> {
        if path.len() == 0 {
            Some(self)
        } else if path[0] != '/' {
            None
        } else {
            self.walk(path.skip(1))
        }
    }
}

/// A token ends at the first `/`, and nowhere else.
pub proof fn lemma_token_len_unique(rest: Seq<char>, n: nat)
    requires
        n <= rest.len(),
        forall|i: int| 0 <= i < n ==> rest[i] != '/',
        n < rest.len() ==> rest[n as int] == '/',
    ensures
        token_len(rest) == n,
    decreases rest.len(),
{
    if rest.len() == 0 || rest[0] == '/' {
    } else {
        assert forall|i: int| 0 <= i < n - 1 implies rest.skip(1)[i] != '/' by {
            assert(rest.skip(1)[i] == rest[i + 1]);
        }
        lemma_token_len_unique(rest.skip(1), (n - 1) as nat);
    }
}

/// A key written as a reference token: `~0` for each `~` and `~1` for each `/`.
pub open spec fn escape_token(key: Seq<char>) -> Seq<char>
    decreases key.len(),
{
    if key.len() == 0 {
        Seq::empty()
    } else if key[0] == '~' {
        seq!['~', '0'] + escape_token(key.skip(1))
    } else if key[0] == '/' {
        seq!['~', '1'] + escape_token(key.skip(1))
    } else {
        seq![key[0]] + escape_token(key.skip(1))
    }
}

/// A key with `~0` for each `~`, its `/` left as they are.
pub open spec fn escape_tilde(key: Seq<char>) -> Seq<char>
    decreases key.len(),
{
    if key.len() == 0 {
        Seq::empty()
    } else if key[0] == '~' {
        seq!['~', '0'] + escape_tilde(key.skip(1))
    } else {
        seq![key[0]] + escape_tilde(key.skip(1))
    }
}

/// Replacing `~1` in a key's token gives the key with only its `~` escaped.
proof fn lemma_replace_slash(key: Seq<char>)
    ensures
        replace_pair(escape_token(key), '1', '/') == escape_tilde(key),
    decreases key.len(),
{
    if key.len() > 0 {
        let rest = escape_token(key.skip(1));
        lemma_replace_slash(key.skip(1));
        if key[0] == '~' {
            let token = seq!['~', '0'] + rest;
            assert(token.skip(1) =~= seq!['0'] + rest);
            assert((seq!['0'] + rest).skip(1) =~= rest);
            assert(replace_pair(seq!['0'] + rest, '1', '/') == seq!['0'] + replace_pair(
                rest,
                '1',
                '/',
            ));
            assert(replace_pair(token, '1', '/') =~= seq!['~', '0'] + replace_pair(rest, '1', '/'));
        } else if key[0] == '/' {
            let token = seq!['~', '1'] + rest;
            assert(token.skip(2) =~= rest);
        } else {
            let token = seq![key[0]] + rest;
            assert(token.skip(1) =~= rest);
        }
    }
}

/// Replacing `~0` in a key with only its `~` escaped gives the key.
proof fn lemma_replace_tilde(key: Seq<char>)
    ensures
        replace_pair(escape_tilde(key), '0', '~') == key,
    decreases key.len(),
{
    if key.len() > 0 {
        let rest = escape_tilde(key.skip(1));
        lemma_replace_tilde(key.skip(1));
        if key[0] == '~' {
            let token = seq!['~', '0'] + rest;
            assert(token.skip(2) =~= rest);
            assert(seq!['~'] + key.skip(1) =~= key);
        } else {
            let token = seq![key[0]] + rest;
            assert(token.skip(1) =~= rest);
            assert(seq![key[0]] + key.skip(1) =~= key);
        }
    }
}

/// The token of a key holds no `/`.
proof fn lemma_escape_token_is_one_token(key: Seq<char>)
    ensures
        token_len(escape_token(key)) == escape_token(key).len(),
    decreases key.len(),
{
    if key.len() > 0 {
        let rest = escape_token(key.skip(1));
        lemma_escape_token_is_one_token(key.skip(1));
        if key[0] == '~' {
            let token = seq!['~', '0'] + rest;
            assert(token.skip(1) =~= seq!['0'] + rest);
            assert((seq!['0'] + rest).skip(1) =~= rest);
            assert(token_len(seq!['0'] + rest) == 1 + token_len(rest));
        } else if key[0] == '/' {
            let token = seq!['~', '1'] + rest;
            assert(token.skip(1) =~= seq!['1'] + rest);
            assert((seq!['1'] + rest).skip(1) =~= rest);
            assert(token_len(seq!['1'] + rest) == 1 + token_len(rest));
        } else {
            let token = seq![key[0]] + rest;
            assert(token.skip(1) =~= rest);
        }
    }
}

/// Unescaping the token of a key gives the key back, whatever `/` and `~`
/// the key holds.
pub proof fn lemma_unescape_escape(key: Seq<char>)
    ensures
        unescape(escape_token(key)) == key,
{
    lemma_replace_slash(key);
    lemma_replace_tilde(key);
}

/// The empty pointer names the value itself, whatever the value.
pub proof fn lemma_empty_pointer(value: ValueView)
    ensures
        value.pointer(Seq::empty()) == Some(value),
{
}

/// In an object, the pointer made of `/` and the token of a key finds what
/// a lookup of the key finds: the value of the first pair with that key,
/// or nothing.
pub proof fn lemma_pointer_to_key(value: ValueView, key: Seq<char>)
    requires
        value is Object,
    ensures
        value.pointer(seq!['/'] + escape_token(key)) == value.get(key),
{
    let token = escape_token(key);
    let path = seq!['/'] + token;
    assert(path.skip(1) =~= token);
    lemma_escape_token_is_one_token(key);
    lemma_unescape_escape(key);
    assert(token.take(token.len() as int) =~= token);
}

/// Replaces the pairs of `~` and `second` in `s` by `with`.
fn replace_pairs(s: &Vec<char>, second: char, with: char) -> (out: Vec<char>)
    ensures
        out@ == replace_pair(s@, second, with),
{
    let mut out: Vec<char> = Vec::new();
    let mut i: usize = 0;
    assert(s@.skip(0) =~= s@);
    while i < s.len()
        invariant
            i <= s@.len(),
            replace_pair(s@, second, with) == out@ + replace_pair(s@.skip(i as int), second, with),
        decreases s@.len() - i,
    {
        let ghost rest = s@.skip(i as int);
        assert(rest[0] == s@[i as int]);
        if s[i] == '~' && i + 1 < s.len() && s[i + 1] == second {
            assert(rest[1] == s@[i + 1]);
            assert(rest.skip(2) =~= s@.skip(i + 2));
            out.push(with);
            i = i + 2;
        } else {
            assert(rest.len() >= 2 ==> rest[1] == s@[i + 1]);
            assert(rest.skip(1) =~= s@.skip(i + 1));
            out.push(s[i]);
            i = i + 1;
        }
    }
    assert(s@.skip(i as int).len() == 0);
    out
}

/// A longer text of digits stands for no smaller a number than its beginning.
pub proof fn lemma_digits_value_grows(s: Seq<char>, k: int)
    requires
        0 <= k <= s.len(),
    ensures
        digits_value(s.take(k)) <= digits_value(s),
    decreases s.len(),
{
    if k == s.len() {
        assert(s.take(k) =~= s);
    } else {
        lemma_digits_value_grows(s.drop_last(), k);
        assert(s.drop_last().take(k) =~= s.take(k));
    }
}

/// The index that `token` stands for, where it is below `limit`.
fn index_below(token: &Vec<char>, limit: usize) -> (r: Option<usize>)
    ensures
        r == (match parse_index(token@) {
            Some(n) => if n < limit {
                Some(n as usize)
            } else {
                None
            },
            None => None,
        }),
{
    let start: usize = if token.len() > 0 && token[0] == '+' {
        1
    } else {
        0
    };
    let ghost digits = unsigned_part(token@);
    assert(digits =~= token@.skip(start as int));
    if start >= token.len() {
        return None;
    }
    let mut j: usize = start;
    while j < token.len()
        invariant
            start <= j <= token@.len(),
            digits == token@.skip(start as int),
            digits == unsigned_part(token@),
            forall|i: int| 0 <= i < j - start ==> is_digit(#[trigger] digits[i]),
        decreases token@.len() - j,
    {
        if !('0' <= token[j] && token[j] <= '9') {
            assert(digits[j - start] == token@[j as int]);
            assert(!is_digit(digits[j - start]));
            return None;
        }
        j = j + 1;
    }
    if limit == 0 {
        return None;
    }
    let mut n: usize = 0;
    j = start;
    assert(digits.take(0) =~= Seq::<char>::empty());
    while j < token.len()
        invariant
            start <= j <= token@.len(),
            digits == token@.skip(start as int),
            digits == unsigned_part(token@),
            forall|i: int| 0 <= i < digits.len() ==> is_digit(#[trigger] digits[i]),
            n == digits_value(digits.take(j - start)),
            n < limit,
        decreases token@.len() - j,
    {
        let c = token[j];
        assert(digits[j - start] == c);
        assert(is_digit(c));
        let d: u32 = c as u32 - '0' as u32;
        let ghost next = digits.take(j - start + 1);
        assert(next.drop_last() =~= digits.take(j - start));
        assert(next.last() == c);
        let m: u128 = (n as u128) * 10 + (d as u128);
        assert(digit_value(c) == d);
        assert(digits_value(next) == m);
        if m >= limit as u128 {
            proof {
                lemma_digits_value_grows(digits, j - start + 1);
                assert(parse_index(token@) == Some(digits_value(digits)));
            }
            return None;
        }
        n = m as usize;
        j = j + 1;
    }
    assert(digits.take(digits.len() as int) =~= digits);
    Some(n)
}

/// The string of the given characters.
fn string_of(chars: &Vec<char>) -> (s: String)
    ensures
        s@ == chars@,
{
    let mut s = String::new();
    let mut i: usize = 0;
    while i < chars.len()
        invariant
            i <= chars@.len(),
            s@ == chars@.take(i as int),
        decreases chars@.len() - i,
    {
        s.push(chars[i]);
        assert(chars@.take(i + 1) =~= chars@.take(i as int).push(chars@[i as int]));
        i = i + 1;
    }
    assert(chars@.take(i as int) =~= chars@);
    s
}

/// The characters of `path` from `from` up to `to`.
fn copy_range(path: &Vec<char>, from: usize, to: usize) -> (out: Vec<char>)
    requires
        from <= to <= path@.len(),
    ensures
        out@ == path@.subrange(from as int, to as int),
{
    let mut out: Vec<char> = Vec::new();
    let mut i: usize = from;
    while i < to
        invariant
            from <= i <= to <= path@.len(),
            out@ == path@.subrange(from as int, i as int),
        decreases to - i,
    {
        out.push(path[i]);
        assert(path@.subrange(from as int, i + 1) =~= path@.subrange(from as int, i as int).push(
            path@[i as int],
        ));
        i = i + 1;
    }
    out
}

impl DataValue {
    /// Whether this is null.
    pub fn is_null(&self) -> (r: bool)
        ensures
            r == (self@ is Null),
    {
        matches!(self, DataValue::Null)
    }

    /// Whether this is a boolean.
    pub fn is_bool(&self) -> (r: bool)
        ensures
            r == (self@ is Bool),
    {
        matches!(self, DataValue::Bool(_))
    }

    /// Whether this is a number, integer or float.
    pub fn is_number(&self) -> (r: bool)
        ensures
            r == (self@ is Integer || self@ is Float),
    {
        matches!(self, DataValue::Number(_))
    }

    /// Whether this is a string.
    pub fn is_string(&self) -> (r: bool)
        ensures
            r == (self@ is String),
    {
        matches!(self, DataValue::String(_))
    }

    /// Whether this is an array.
    pub fn is_array(&self) -> (r: bool)
        ensures
            r == (self@ is Array),
    {
        matches!(self, DataValue::Array(_))
    }

    /// Whether this is an object.
    pub fn is_object(&self) -> (r: bool)
        ensures
            r == (self@ is Object),
    {
        matches!(self, DataValue::Object(_))
    }

    /// One step of a pointer from this value; see [`ValueView::step`].
    fn step(&self, token: &Vec<char>) -> (r: Option<&DataValue>)
        ensures
            match self@.step(token@) {
                Some(v) => r matches Some(found) && found@ == v,
                None => r is None,
            },
    {
        match self {
            DataValue::Object(_) => {
                let key = string_of(token);
                self.get(key.as_str())
            },
            DataValue::Array(items) => match index_below(token, items.len()) {
                Some(n) => self.get_index(n),
                None => None,
            },
            _ => None,
        }
    }

    /// The value that a JSON Pointer names; see [`ValueView::pointer`]. The
    /// empty pointer names this value itself.
    pub fn pointer(&self, pointer: &str) -> (r: Option<&DataValue>)
        ensures
            match self@.pointer(pointer@) {
                Some(v) => r matches Some(found) && found@ == v,
                None => r is None,
            },
            pointer@.len() == 0 ==> r == Some(self),
    {
        let path = chars_of(pointer);
        if path.len() == 0 {
            return Some(self);
        }
        if path[0] != '/' {
            return None;
        }
        let mut current: &DataValue = self;
        let mut pos: usize = 1;
        loop
            invariant
                1 <= pos <= path@.len(),
                path@ == pointer@,
                self@.pointer(path@) == current@.walk(path@.skip(pos as int)),
            decreases path@.len() - pos,
        {
            let ghost rest = path@.skip(pos as int);
            let mut end: usize = pos;
            while end < path.len() && path[end] != '/'
                invariant
                    pos <= end <= path@.len(),
                    forall|i: int| pos <= i < end ==> path@[i] != '/',
                decreases path@.len() - end,
            {
                end = end + 1;
            }
            proof {
                assert forall|i: int| 0 <= i < end - pos implies rest[i] != '/' by {
                    assert(rest[i] == path@[pos + i]);
                }
                lemma_token_len_unique(rest, (end - pos) as nat);
                assert(rest.take(end - pos) =~= path@.subrange(pos as int, end as int));
            }
            let token = copy_range(&path, pos, end);
            let plain = replace_pairs(&replace_pairs(&token, '1', '/'), '0', '~');
            match current.step(&plain) {
                None => {
                    return None;
                },
                Some(child) => {
                    if end >= path.len() {
                        return Some(child);
                    }
                    assert(rest.skip(end - pos + 1) =~= path@.skip(end + 1));
                    current = child;
                    pos = end + 1;
                },
            }
        }
    }

    /// A tree is never changed in place: no pointer gives a way to do so.
    pub fn pointer_mut(&mut self, pointer: &str) -> (r: Option<&mut DataValue>)
        ensures
            r is None,
            *final(self) == *old(self),
    {
        None
    }
}

impl Index<&str> for DataValue {
    type Output = DataValue;

    /// The value under `key`, for an object that has the key: any other
    /// use is the caller's error.
    fn index(&self, key: &str) -> (v: &DataValue)
        ensures
            self@.get(key@) == Some(v@),
    {
        match self.get(key) {
            Some(found) => found,
            None => vstd::pervasive::unreached(),
        }
    }
}

impl vstd::std_specs::core::IndexSpecImpl<&str> for DataValue {
    open spec fn index_req(&self, key: &&str) -> bool {
        self@.get(key@) is Some
    }
}

impl Index<usize> for DataValue {
    type Output = DataValue;

    /// The element at `index`, for an array that has it: any other use is
    /// the caller's error.
    fn index(&self, index: usize) -> (v: &DataValue)
        ensures
            self@.get_index(index as int) == Some(v@),
    {
        match self.get_index(index) {
            Some(found) => found,
            None => vstd::pervasive::unreached(),
        }
    }
}

impl vstd::std_specs::core::IndexSpecImpl<usize> for DataValue {
    open spec fn index_req(&self, index: &usize) -> bool {
        self@.get_index(*index as int) is Some
    }
}

} // verus!
