//! Settings storage: values written as text, kept under string keys, and
//! the `key = value` lines of a settings file.

use vstd::prelude::*;
use vstd::string::{StrSliceExecFns, StringExecFns};

verus! {

/// A value that can be written as text.
pub trait Serialize {
    /// The text the value is written as.
    spec fn text(&self) -> Seq<char>;

    /// Serialize object to a string.
    fn serialize(&self) -> (r: String)
        ensures
            r@ == self.text(),
    ;
}

/// A value that can be read back from text.
pub trait Deserialize: Sized {
    /// Whether `text` stands for a value.
    spec fn parses(text: Seq<char>) -> bool;

    /// Whether `text` stands for `v`.
    spec fn parsed_as(text: Seq<char>, v: Self) -> bool;

    /// Whether `from_string` stands for a value.
    fn can_deserialize(from_string: &String) -> (r: bool)
        ensures
            r == Self::parses(from_string@),
    ;

    /// Deserialize object from a string.
    fn deserialize(from_string: String) -> (r: Self)
        requires
            Self::parses(from_string@),
        ensures
            Self::parsed_as(from_string@, r),
    ;
}

/// The ASCII digit for `d` (`0 <= d < 10`).
pub open spec fn digit_char(d: nat) -> char {
    ((d + 48) as u8) as char
}

/// The decimal digits of `n`, most significant first, without leading
/// zeros.
pub open spec fn decimal_digits(n: nat) -> Seq<char>
    decreases n,
{
    if n < 10 {
        seq![digit_char(n)]
    } else {
        decimal_digits(n / 10).push(digit_char(n % 10))
    }
}

/// The decimal text of `v`: a minus sign for a negative number, then the
/// digits of its magnitude.
pub open spec fn i32_text(v: i32) -> Seq<char> {
    if v < 0 {
        seq!['-'] + decimal_digits((-v) as nat)
    } else {
        decimal_digits(v as nat)
    }
}

/// `s` is one or more ASCII digits.
pub open spec fn is_digits(s: Seq<char>) -> bool {
    s.len() > 0 && forall|i: int| 0 <= i < s.len() ==> '0' <= #[trigger] s[i] <= '9'
}

/// The number that the ASCII digits `s` stand for.
pub open spec fn digits_value(s: Seq<char>) -> int
    decreases s.len(),
{
    if s.len() == 0 {
        0
    } else {
        digits_value(s.drop_last()) * 10 + (s.last() as u32 - 48)
    }
}

/// What a text stands for as an `i32`: an optional `+` or `-`, then one
/// or more ASCII digits, with a value in range; `None` for anything else.
pub open spec fn i32_of_text(s: Seq<char>) -> Option<i32> {
    let signed = s.len() > 0 && (s[0] == '-' || s[0] == '+');
    let body = if signed {
        s.skip(1)
    } else {
        s
    };
    let v = if signed && s[0] == '-' {
        -digits_value(body)
    } else {
        digits_value(body)
    };
    if is_digits(body) && i32::MIN <= v <= i32::MAX {
        Some(v as i32)
    } else {
        None
    }
}

/// Relies on `i32::to_string` (`Display` for `i32`): a minus sign for a
/// negative number, then its decimal digits without leading zeros.
#[verifier::external_body]
fn i32_to_text(v: i32) -> (r: String)
    ensures
        r@ == i32_text(v),
{
    v.to_string()
}

/// Relies on `str::parse::<i32>` (`FromStr` for `i32`): an optional `+`
/// or `-` followed by one or more ASCII digits whose value is in range;
/// anything else (empty text, other characters, overflow) is an error.
#[verifier::external_body]
fn parse_i32(s: &str) -> (r: Option<i32>)
    ensures
        r == i32_of_text(s@),
{
    s.parse::<i32>().ok()
}

/// A string is written between double quotes.
impl Serialize for String {
    open spec fn text(&self) -> Seq<char> {
        seq!['"'] + self@ + seq!['"']
    }

    fn serialize(&self) -> (r: String) {
        let mut r = String::from_str("\"");
        r.append(self.as_str());
        r.append("\"");
        proof {
            reveal_strlit("\"");
        }
        assert(r@ =~= seq!['"'] + self@ + seq!['"']);
        r
    }
}

impl<'a> Serialize for &'a str {
    open spec fn text(&self) -> Seq<char> {
        seq!['"'] + (*self)@ + seq!['"']
    }

    fn serialize(&self) -> (r: String) {
        let mut r = String::from_str("\"");
        r.append(*self);
        r.append("\"");
        proof {
            reveal_strlit("\"");
        }
        assert(r@ =~= seq!['"'] + (*self)@ + seq!['"']);
        r
    }
}

/// A string is read back without its first and last characters.
impl Deserialize for String {
    open spec fn parses(text: Seq<char>) -> bool {
        text.len() >= 2
    }

    open spec fn parsed_as(text: Seq<char>, v: String) -> bool {
        v@ == text.subrange(1, text.len() - 1)
    }

    fn can_deserialize(from_string: &String) -> (r: bool) {
        from_string.as_str().unicode_len() >= 2
    }

    fn deserialize(from_string: String) -> (r: String) {
        let n = from_string.as_str().unicode_len();
        from_string.as_str().substring_char(1, n - 1).to_owned()
    }
}

impl Serialize for i32 {
    open spec fn text(&self) -> Seq<char> {
        i32_text(*self)
    }

    fn serialize(&self) -> (r: String) {
        i32_to_text(*self)
    }
}

impl Deserialize for i32 {
    open spec fn parses(text: Seq<char>) -> bool {
        i32_of_text(text) is Some
    }

    open spec fn parsed_as(text: Seq<char>, v: i32) -> bool {
        i32_of_text(text) == Some(v)
    }

    fn can_deserialize(from_string: &String) -> (r: bool) {
        parse_i32(from_string.as_str()).is_some()
    }

    fn deserialize(from_string: String) -> (r: i32) {
        match parse_i32(from_string.as_str()) {
            Some(v) => v,
            None => {
                proof {
                    assert(false);
                }
                0
            },
        }
    }
}

impl Serialize for bool {
    open spec fn text(&self) -> Seq<char> {
        if *self {
            "true"@
        } else {
            "false"@
        }
    }

    fn serialize(&self) -> (r: String) {
        if *self {
            String::from_str("true")
        } else {
            String::from_str("false")
        }
    }
}

impl Deserialize for bool {
    open spec fn parses(text: Seq<char>) -> bool {
        text == "true"@ || text == "false"@
    }

    open spec fn parsed_as(text: Seq<char>, v: bool) -> bool {
        v == (text == "true"@)
    }

    fn can_deserialize(from_string: &String) -> (r: bool) {
        let t = String::from_str("true");
        let f = String::from_str("false");
        *from_string == t || *from_string == f
    }

    fn deserialize(from_string: String) -> (r: bool) {
        let t = String::from_str("true");
        from_string == t
    }
}

/// `i` is the first entry of `entries` under `key`.
pub open spec fn is_first_key(entries: Seq<(String, String)>, key: Seq<char>, i: int) -> bool {
    &&& 0 <= i < entries.len()
    &&& entries[i].0@ == key
    &&& forall|j: int| 0 <= j < i ==> entries[j].0@ != key
}

/// The value first stored under `key`, if any.
pub open spec fn value_of(entries: Seq<(String, String)>, key: Seq<char>) -> Option<Seq<char>> {
    if exists|i: int| is_first_key(entries, key, i) {
        Some(entries[choose|i: int| is_first_key(entries, key, i)].1@)
    } else {
        None
    }
}

/// The text of a settings file: one `key = value` line per entry.
pub open spec fn rendered(entries: Seq<(Seq<char>, Seq<char>)>) -> Seq<char>
    decreases entries.len(),
{
    if entries.len() == 0 {
        Seq::empty()
    } else {
        let e = entries.last();
        rendered(entries.drop_last()) + e.0 + " = "@ + e.1 + "\n"@
    }
}

/// `entries` after storing `v` under `k`: in place of the first value
/// stored under `k`, or as a new last entry.
pub open spec fn stored(entries: Seq<(Seq<char>, Seq<char>)>, k: Seq<char>, v: Seq<char>) -> Seq<
    (Seq<char>, Seq<char>),
> {
    if exists|i: int| 0 <= i < entries.len() && entries[i].0 == k {
        entries.update(
            choose|i: int|
                0 <= i < entries.len() && entries[i].0 == k && forall|j: int|
                    0 <= j < i ==> entries[j].0 != k,
            (k, v),
        )
    } else {
        entries.push((k, v))
    }
}

/// Where `c` first stands in `t`, or -1.
pub open spec fn find_char(t: Seq<char>, c: char) -> int
    decreases t.len(),
{
    if t.len() == 0 {
        -1
    } else if t[0] == c {
        0
    } else {
        let r = find_char(t.skip(1), c);
        if r < 0 {
            -1
        } else {
            r + 1
        }
    }
}

/// The lines of `t`: the pieces between newlines, without an empty piece
/// after a final newline.
pub open spec fn lines_of(t: Seq<char>) -> Seq<Seq<char>>
    decreases t.len(),
{
    let i = find_char(t, '\n');
    if i < 0 {
        if t.len() == 0 {
            Seq::empty()
        } else {
            seq![t]
        }
    } else {
        if 0 <= i < t.len() {
            seq![t.take(i)] + lines_of(t.skip(i + 1))
        } else {
            Seq::empty()
        }
    }
}

/// The text that `str::trim` leaves of `s`.
pub uninterp spec fn trimmed(s: Seq<char>) -> Seq<char>;

/// Relies on `str::trim`: `s` without leading and trailing whitespace,
/// which depends on `s` alone.
#[verifier::external_body]
fn trim_text(s: &str) -> (r: String)
    ensures
        r@ == trimmed(s@),
{
    s.trim().to_string()
}

/// The key and value of a settings line: the trimmed text before the
/// first `=` and the trimmed text after it, up to a further `=`.
pub open spec fn parse_line(l: Seq<char>) -> Option<(Seq<char>, Seq<char>)> {
    let e = find_char(l, '=');
    if e < 0 {
        None
    } else {
        let rest = l.skip(e + 1);
        let f = find_char(rest, '=');
        let v = if f < 0 {
            rest
        } else {
            rest.take(f)
        };
        Some((trimmed(l.take(e)), trimmed(v)))
    }
}

/// `entries` after storing the entry of each of `lines` in turn.
pub open spec fn loaded(entries: Seq<(Seq<char>, Seq<char>)>, lines: Seq<Seq<char>>) -> Seq<
    (Seq<char>, Seq<char>),
>
    decreases lines.len(),
{
    if lines.len() == 0 {
        entries
    } else {
        let next = match parse_line(lines[0]) {
            Some(e) => stored(entries, e.0, e.1),
            None => entries,
        };
        loaded(next, lines.skip(1))
    }
}

/// `c` first stands at `j` in `t` when it is there and nowhere before.
proof fn lemma_find_char_at(t: Seq<char>, c: char, j: int)
    requires
        0 <= j < t.len(),
        t[j] == c,
        forall|k: int| 0 <= k < j ==> t[k] != c,
    ensures
        find_char(t, c) == j,
    decreases j,
{
    if j > 0 {
        lemma_find_char_at(t.skip(1), c, j - 1);
    }
}

/// `c` is not found in `t` when it is nowhere in it.
proof fn lemma_find_char_none(t: Seq<char>, c: char)
    requires
        forall|k: int| 0 <= k < t.len() ==> t[k] != c,
    ensures
        find_char(t, c) == -1,
    decreases t.len(),
{
    if t.len() > 0 {
        lemma_find_char_none(t.skip(1), c);
    }
}

/// Key/value store kept as `key = value` lines; the keys are kept in the
/// order in which they were first set.
#[derive(Debug)]
pub struct FileStore {
    pub entries: Vec<(String, String)>,
}

impl FileStore {
    /// Keys and values as text.
    pub open spec fn view(&self) -> Seq<(Seq<char>, Seq<char>)> {
        self.entries@.map_values(|e: (String, String)| (e.0@, e.1@))
    }

    /// An empty store.
    pub fn new() -> (r: FileStore)
        ensures
            r.entries@.len() == 0,
    {
        FileStore { entries: Vec::new() }
    }

    /// Where `key` is first stored, if anywhere.
    fn find(&self, key: &str) -> (r: Option<usize>)
        ensures
            match r {
                Some(i) => is_first_key(self.entries@, key@, i as int),
                None => forall|i: int| 0 <= i < self.entries@.len() ==> self.entries@[i].0@ != key@,
            },
    {
        let k = key.to_owned();
        let mut i: usize = 0;
        while i < self.entries.len()
            invariant
                i <= self.entries@.len(),
                k@ == key@,
                forall|j: int| 0 <= j < i ==> self.entries@[j].0@ != key@,
            decreases self.entries@.len() - i,
        {
            if self.entries[i].0 == k {
                return Some(i);
            }
            i = i + 1;
        }
        None
    }

    /// The value stored under `key`, read back as a `T`; `Err` when there
    /// is none or it does not stand for a `T`.
    pub fn get<T: Deserialize>(&self, key: &str) -> (r: Result<T, ()>)
        ensures
            match value_of(self.entries@, key@) {
                None => r is Err,
                Some(text) => if T::parses(text) {
                    r matches Ok(v) && T::parsed_as(text, v)
                } else {
                    r is Err
                },
            },
    {
        match self.find(key) {
            None => Err(()),
            Some(i) => {
                proof {
                    let k = choose|k: int| is_first_key(self.entries@, key@, k);
                    assert(k == i);
                }
                let entry = self.entries[i].1.clone();
                if T::can_deserialize(&entry) {
                    Ok(T::deserialize(entry))
                } else {
                    Err(())
                }
            },
        }
    }

    /// Stores `value`'s text under `key`, in place of the value stored
    /// there before, or as a new last entry.
    pub fn set<T: Serialize>(&mut self, key: &str, value: &T) -> (r: Result<(), ()>)
        ensures
            r is Ok,
            final(self).view() == stored(old(self).view(), key@, value.text()),
    {
        let text = value.serialize();
        self.put(key.to_owned(), text);
        Ok(())
    }

    /// Stores `value` under `key`, in place of the value stored there
    /// before, or as a new last entry.
    pub fn put(&mut self, key: String, value: String)
        ensures
            final(self).view() == stored(old(self).view(), key@, value@),
    {
        let ghost (k, v) = (key@, value@);
        let ghost w = old(self).view();
        match self.find(key.as_str()) {
            Some(i) => {
                proof {
                    assert(w[i as int].0 == k);
                    let c = choose|c: int|
                        0 <= c < w.len() && w[c].0 == k && forall|j: int|
                            0 <= j < c ==> w[j].0 != k;
                    assert(w[c].0 == k);
                    assert(c == i);
                }
                let _ = self.entries.remove(i);
                self.entries.insert(i, (key, value));
                assert(self.view() =~= old(self).view().update(i as int, (k, v)));
            },
            None => {
                proof {
                    assert(!exists|c: int| 0 <= c < w.len() && w[c].0 == k);
                }
                self.entries.push((key, value));
                assert(self.view() =~= old(self).view().push((k, v)));
            },
        }
    }

    /// Reads the text of a settings file: each line that holds `=` gives
    /// the key before it and the value after it (up to a further `=`),
    /// both trimmed; a later line for a key replaces the earlier value.
    pub fn from_text(text: &str) -> (r: FileStore)
        ensures
            r.view() == loaded(Seq::empty(), lines_of(text@)),
    {
        let mut store = FileStore::new();
        let n = text.unicode_len();
        let mut start: usize = 0;
        let mut i: usize = 0;
        assert(store.view() =~= Seq::<(Seq<char>, Seq<char>)>::empty());
        assert(text@.subrange(0, n as int) =~= text@);
        while i < n
            invariant
                start <= i <= n,
                n == text@.len(),
                forall|k: int| start <= k < i ==> text@[k] != '\n',
                loaded(Seq::empty(), lines_of(text@)) == loaded(
                    store.view(),
                    lines_of(text@.subrange(start as int, n as int)),
                ),
            decreases n - i,
        {
            if text.get_char(i) == '\n' {
                let line = text.substring_char(start, i);
                let ghost t = text@.subrange(start as int, n as int);
                proof {
                    lemma_find_char_at(t, '\n', i - start);
                    assert(t.take(i - start) =~= line@);
                    assert(t.skip(i - start + 1) =~= text@.subrange(i + 1, n as int));
                }
                let ghost before = store.view();
                store.load_line(line);
                proof {
                    let rest = lines_of(text@.subrange(i + 1, n as int));
                    let ls = seq![line@] + rest;
                    assert(lines_of(t) == ls);
                    assert(ls[0] == line@);
                    assert(ls.skip(1) =~= rest);
                }
                start = i + 1;
            }
            i = i + 1;
        }
        if start < n {
            let line = text.substring_char(start, n);
            let ghost t = text@.subrange(start as int, n as int);
            proof {
                lemma_find_char_none(t, '\n');
                assert(t =~= line@);
                assert(lines_of(t) == seq![t]);
                assert(seq![t].skip(1) =~= Seq::<Seq<char>>::empty());
            }
            let ghost before = store.view();
            store.load_line(line);
            proof {
                let after = store.view();
                assert(loaded(before, seq![t]) == loaded(after, seq![t].skip(1)));
                assert(loaded(after, Seq::<Seq<char>>::empty()) == after);
            }
        } else {
            proof {
                let t = text@.subrange(start as int, n as int);
                assert(t =~= Seq::<char>::empty());
                assert(lines_of(t) == Seq::<Seq<char>>::empty());
            }
        }
        store
    }

    /// Stores the entry of one settings line, if the line holds one.
    fn load_line(&mut self, line: &str)
        ensures
            final(self).view() == match parse_line(line@) {
                Some(e) => stored(old(self).view(), e.0, e.1),
                None => old(self).view(),
            },
    {
        let n = line.unicode_len();
        let mut e: usize = 0;
        while e < n && line.get_char(e) != '='
            invariant
                e <= n,
                n == line@.len(),
                forall|k: int| 0 <= k < e ==> line@[k] != '=',
            decreases n - e,
        {
            e = e + 1;
        }
        if e == n {
            proof {
                lemma_find_char_none(line@, '=');
            }
            return;
        }
        proof {
            lemma_find_char_at(line@, '=', e as int);
        }
        let mut f: usize = e + 1;
        while f < n && line.get_char(f) != '='
            invariant
                e < f <= n,
                n == line@.len(),
                forall|k: int| e < k < f ==> line@[k] != '=',
            decreases n - f,
        {
            f = f + 1;
        }
        proof {
            let rest = line@.skip(e + 1);
            if f == n {
                lemma_find_char_none(rest, '=');
                assert(rest =~= line@.subrange(e + 1, n as int));
            } else {
                lemma_find_char_at(rest, '=', f - e - 1);
                assert(rest.take(f - e - 1) =~= line@.subrange(e + 1, f as int));
            }
            assert(line@.take(e as int) =~= line@.subrange(0, e as int));
        }
        let key = trim_text(line.substring_char(0, e));
        let value = trim_text(line.substring_char(e + 1, f));
        self.put(key, value);
    }

    /// The text of the settings file: one `key = value` line per entry.
    pub fn render(&self) -> (r: String)
        ensures
            r@ == rendered(self.view()),
    {
        let mut out = String::new();
        let mut i: usize = 0;
        while i < self.entries.len()
            invariant
                i <= self.entries@.len(),
                out@ == rendered(self.view().take(i as int)),
            decreases self.entries@.len() - i,
        {
            out.append(self.entries[i].0.as_str());
            out.append(" = ");
            out.append(self.entries[i].1.as_str());
            out.append("\n");
            proof {
                assert(self.view().take(i + 1).drop_last() =~= self.view().take(i as int));
            }
            i = i + 1;
        }
        assert(self.view().take(self.entries@.len() as int) =~= self.view());
        out
    }
}

} // verus!
