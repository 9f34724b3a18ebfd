//! Paths: sequences of names, written with a slash before each name.
//!
//! The model of a path is the sequence of its names, each a sequence of
//! characters. `path_text` gives the text of a path, and parsing is its
//! inverse: the path of a text is the one path whose text it is.

use super::error::Error;
use vstd::prelude::*;
use vstd::string::*;

verus! {

/// A letter of the Latin alphabet.
pub open spec fn is_letter(c: char) -> bool {
    ('A' <= c && c <= 'Z') || ('a' <= c && c <= 'z')
}

/// A character that may stand in a name: a letter, a digit or an underscore.
pub open spec fn is_name_char(c: char) -> bool {
    is_letter(c) || ('0' <= c && c <= '9') || c == '_'
}

/// A name: a letter, followed by any number of name characters.
pub open spec fn is_name(name: Seq<char>) -> bool {
    &&& name.len() > 0
    &&& is_letter(name[0])
    &&& forall|i: int| 0 <= i < name.len() ==> is_name_char(#[trigger] name[i])
}

/// A path: every segment is a name.
pub open spec fn is_path(path: Seq<Seq<char>>) -> bool {
    forall|i: int| 0 <= i < path.len() ==> is_name(#[trigger] path[i])
}

/// The text of a path: each name with a slash before it. The root, which has
/// no name, has the empty text.
pub open spec fn path_text(path: Seq<Seq<char>>) -> Seq<char>
    decreases path.len(),
{
    if path.len() == 0 {
        Seq::<char>::empty()
    } else {
        path_text(path.drop_last()) + seq!['/'] + path.last()
    }
}

/// The character in place `i` of `text` may stand where it stands: a letter
/// behind a slash, a name character or a slash elsewhere.
pub open spec fn char_fits(text: Seq<char>, i: int) -> bool {
    if text[i - 1] == '/' {
        is_letter(text[i])
    } else {
        text[i] == '/' || is_name_char(text[i])
    }
}

/// A text that stands for a path: a single slash, which is the root, or a
/// slash and a name, any number of times. So the text is not empty, begins
/// with a slash, has a letter behind every slash and name characters
/// elsewhere, and does not end in a slash unless it is the root.
pub open spec fn is_path_text(text: Seq<char>) -> bool {
    &&& text.len() > 0
    &&& text[0] == '/'
    &&& text.len() > 1 ==> text.last() != '/'
    &&& forall|i: int| 1 <= i < text.len() ==> #[trigger] char_fits(text, i)
}

/// The path that a text stands for, where it stands for one.
pub open spec fn path_of_text(text: Seq<char>) -> Seq<Seq<char>> {
    if text.len() <= 1 {
        Seq::<Seq<char>>::empty()
    } else {
        choose|path: Seq<Seq<char>>| is_path(path) && path_text(path) == text
    }
}

/// What parsing makes of a text.
pub open spec fn parse_path(text: Seq<char>) -> Result<Seq<Seq<char>>, Error> {
    if text.len() == 0 {
        Err(Error::EmptyName)
    } else if !is_path_text(text) {
        Err(Error::InvalidName)
    } else {
        Ok(path_of_text(text))
    }
}

/// The names of a list of strings.
pub open spec fn segments(chain: Seq<String>) -> Seq<Seq<char>> {
    chain.map_values(|s: String| s@)
}

/// A name holds no slash.
pub proof fn lemma_name_has_no_slash(name: Seq<char>, i: int)
    requires
        is_name(name),
        0 <= i < name.len(),
    ensures
        name[i] != '/',
{
    assert(is_name_char(name[i]));
}

/// The text of a path with one more name.
pub proof fn lemma_path_text_push(path: Seq<Seq<char>>, name: Seq<char>)
    ensures
        path_text(path.push(name)) == path_text(path) + seq!['/'] + name,
{
    assert(path.push(name).drop_last() =~= path);
}

/// The text of a path that has a name begins with a slash and is longer than
/// its last name.
pub proof fn lemma_path_text_shape(path: Seq<Seq<char>>)
    requires
        path.len() > 0,
    ensures
        path_text(path).len() > path.last().len(),
        path_text(path)[0] == '/',
    decreases path.len(),
{
    if path.len() > 1 {
        lemma_path_text_shape(path.drop_last());
    } else {
        assert(path_text(path.drop_last()) =~= Seq::<char>::empty());
    }
}

/// Two paths with the same text are the same path.
pub proof fn lemma_path_text_injective(p: Seq<Seq<char>>, q: Seq<Seq<char>>)
    requires
        is_path(p),
        is_path(q),
        path_text(p) == path_text(q),
    ensures
        p == q,
    decreases p.len(),
{
    if p.len() == 0 {
        if q.len() > 0 {
            lemma_path_text_shape(q);
        }
        assert(p =~= q);
    } else if q.len() == 0 {
        lemma_path_text_shape(p);
    } else {
        let t = path_text(p);
        let a = p.last();
        let b = q.last();
        let pa = path_text(p.drop_last());
        let qb = path_text(q.drop_last());
        assert(t == pa + seq!['/'] + a);
        assert(t == qb + seq!['/'] + b);
        assert(is_name(a));
        assert(is_name(b));
        // The last slash of the text stands right before the last name.
        if a.len() < b.len() {
            let k = b.len() - a.len() - 1;
            assert(t[pa.len() as int] == '/');
            assert(t[pa.len() as int] == b[k]);
            lemma_name_has_no_slash(b, k);
        }
        if b.len() < a.len() {
            let k = a.len() - b.len() - 1;
            assert(t[qb.len() as int] == '/');
            assert(t[qb.len() as int] == a[k]);
            lemma_name_has_no_slash(a, k);
        }
        assert(a.len() == b.len());
        assert(pa.len() == qb.len());
        assert(a =~= b) by {
            assert forall|i: int| 0 <= i < a.len() implies a[i] == b[i] by {
                assert(t[pa.len() + 1 + i] == a[i]);
                assert(t[qb.len() + 1 + i] == b[i]);
            }
        }
        assert(pa =~= qb) by {
            assert forall|i: int| 0 <= i < pa.len() implies pa[i] == qb[i] by {
                assert(t[i] == pa[i]);
                assert(t[i] == qb[i]);
            }
        }
        assert(is_path(p.drop_last()));
        assert(is_path(q.drop_last()));
        lemma_path_text_injective(p.drop_last(), q.drop_last());
        assert(p =~= p.drop_last().push(a));
        assert(q =~= q.drop_last().push(b));
    }
}

/// The text of a path that has a name stands for a path.
pub proof fn lemma_path_text_is_path_text(path: Seq<Seq<char>>)
    requires
        is_path(path),
        path.len() > 0,
    ensures
        is_path_text(path_text(path)),
        path_text(path).len() > 1,
    decreases path.len(),
{
    let t = path_text(path);
    let front = path_text(path.drop_last());
    let name = path.last();
    assert(is_name(name));
    assert(t == front + seq!['/'] + name);
    lemma_path_text_shape(path);
    if path.len() > 1 {
        assert(is_path(path.drop_last()));
        lemma_path_text_is_path_text(path.drop_last());
    }
    assert(t.last() == name.last());
    lemma_name_has_no_slash(name, name.len() - 1);
    assert forall|i: int| 1 <= i < t.len() implies #[trigger] char_fits(t, i) by {
        let n = front.len() as int;
        if i < n {
            assert(t[i] == front[i]);
            assert(t[i - 1] == front[i - 1]);
            assert(char_fits(front, i));
        } else if i == n {
            assert(t[i] == '/');
            assert(t[i - 1] == front[i - 1]);
            assert(front.last() != '/');
        } else if i == n + 1 {
            assert(t[i - 1] == '/');
            assert(t[i] == name[0]);
        } else {
            assert(t[i] == name[i - n - 1]);
            assert(t[i - 1] == name[i - n - 2]);
            lemma_name_has_no_slash(name, i - n - 2);
            assert(is_name_char(name[i - n - 1]));
        }
    }
}

/// Parsing the text of a path that has a name gives that path back. The root
/// is left out: its text is empty, which is no text of a path.
pub proof fn theorem_parse_inverts_text(path: Seq<Seq<char>>)
    requires
        is_path(path),
        path.len() > 0,
    ensures
        parse_path(path_text(path)) == Ok::<Seq<Seq<char>>, Error>(path),
{
    lemma_path_text_is_path_text(path);
    let found = path_of_text(path_text(path));
    assert(is_path(found) && path_text(found) == path_text(path));
    lemma_path_text_injective(found, path);
}

/// The place of the last slash of a text, or -1 where it has none.
pub open spec fn last_slash(text: Seq<char>) -> int
    decreases text.len(),
{
    if text.len() == 0 {
        -1
    } else if text.last() == '/' {
        text.len() - 1
    } else {
        last_slash(text.drop_last())
    }
}

/// In a text that begins with a slash, a slash stands at `last_slash` and none
/// stands behind it.
pub proof fn lemma_last_slash(text: Seq<char>)
    requires
        text.len() > 0,
        text[0] == '/',
    ensures
        0 <= last_slash(text) < text.len(),
        text[last_slash(text)] == '/',
        forall|j: int| last_slash(text) < j < text.len() ==> text[j] != '/',
    decreases text.len(),
{
    if text.last() != '/' {
        lemma_last_slash(text.drop_last());
        assert forall|j: int| last_slash(text) < j < text.len() implies text[j] != '/' by {
            if j < text.len() - 1 {
                assert(text.drop_last()[j] == text[j]);
            }
        }
    }
}

/// Every text that stands for a path other than the root is the text of a path.
pub proof fn lemma_path_text_has_path(text: Seq<char>)
    requires
        is_path_text(text),
        text.len() > 1,
    ensures
        exists|path: Seq<Seq<char>>| is_path(path) && path_text(path) == text,
    decreases text.len(),
{
    lemma_last_slash(text);
    let k = last_slash(text);
    let name = text.skip(k + 1);
    let front = text.take(k);
    assert(char_fits(text, k + 1));
    assert(is_name(name)) by {
        assert forall|i: int| 0 <= i < name.len() implies is_name_char(#[trigger] name[i]) by {
            assert(char_fits(text, k + 1 + i));
        }
    }
    let rest = if k == 0 {
        Seq::<Seq<char>>::empty()
    } else {
        assert(char_fits(text, k));
        assert(is_path_text(front)) by {
            assert forall|i: int| 1 <= i < front.len() implies #[trigger] char_fits(front, i) by {
                assert(char_fits(text, i));
            }
        }
        if k == 1 {
            assert(char_fits(text, 1));
        }
        lemma_path_text_has_path(front);
        choose|path: Seq<Seq<char>>| is_path(path) && path_text(path) == front
    };
    assert(path_text(rest) =~= front);
    let path = rest.push(name);
    lemma_path_text_push(rest, name);
    assert(path_text(path) =~= text);
    assert(is_path(path));
}

/// A text that parses is the text of the path it gives, but for the single
/// slash, which gives the root.
pub proof fn theorem_text_inverts_parse(text: Seq<char>)
    requires
        parse_path(text) is Ok,
    ensures
        is_path(parse_path(text)->Ok_0),
        text.len() > 1 ==> path_text(parse_path(text)->Ok_0) == text,
        text.len() == 1 ==> parse_path(text)->Ok_0 == Seq::<Seq<char>>::empty(),
{
    if text.len() > 1 {
        lemma_path_text_has_path(text);
    }
}

/// A path that owns its names.
#[derive(Debug, PartialEq, Eq)]
pub struct Buffer {
    chain: Vec<String>,
}

impl View for Buffer {
    type V = Seq<Seq<char>>;

    /// The names of the path, in order.
    closed spec fn view(&self) -> Seq<Seq<char>> {
        segments(self.chain@)
    }
}

/// Whether a byte is a letter of the Latin alphabet.
fn is_letter_byte(b: u8) -> (r: bool)
    ensures
        r == is_letter(b as char),
{
    (65 <= b && b <= 90) || (97 <= b && b <= 122)
}

/// Whether a byte may stand in a name.
fn is_name_byte(b: u8) -> (r: bool)
    ensures
        r == is_name_char(b as char),
{
    is_letter_byte(b) || (48 <= b && b <= 57) || b == 95
}

impl Buffer {
    /// Reads a path from its text. The single slash is the root. Any other
    /// text must be made of a slash and a name, any number of times.
    pub fn parse(text: &str) -> (r: Result<Buffer, Error>)
        ensures
            r matches Ok(path) ==> parse_path(text@) == Ok::<Seq<Seq<char>>, Error>(path@) && is_path(
                path@,
            ),
            r matches Err(e) ==> parse_path(text@) == Err::<Seq<Seq<char>>, Error>(e),
    {
        if !text.is_ascii() {
            proof {
                let i = choose|i: int| 0 <= i < text@.len() && !('\0' <= text@[i] && text@[i] <= '\u{7f}');
                if i > 0 && is_path_text(text@) {
                    assert(char_fits(text@, i));
                }
            }
            return Err(Error::InvalidName);
        }
        let n: usize = text.as_bytes().len();
        proof {
            vstd::utf8::is_ascii_chars_encode_utf8(text@);
        }
        if n == 0 {
            return Err(Error::EmptyName);
        }
        if text.get_ascii(0) != 47 {
            return Err(Error::InvalidName);
        }
        let mut chain: Vec<String> = Vec::new();
        if n == 1 {
            assert(segments(chain@) =~= Seq::<Seq<char>>::empty());
            return Ok(Buffer { chain });
        }
        let mut start: usize = 1;
        let mut i: usize = 1;
        assert(path_text(segments(chain@)) + seq!['/'] + text@.subrange(1, 1) =~= text@.take(1));
        while i < n
            invariant
                n == text@.len(),
                n > 1,
                text.is_ascii(),
                text@[0] == '/',
                1 <= start <= i <= n,
                text@[start - 1] == '/',
                forall|j: int| start <= j < i ==> text@[j] != '/',
                forall|j: int| 1 <= j < i ==> #[trigger] char_fits(text@, j),
                is_path(segments(chain@)),
                path_text(segments(chain@)) + seq!['/'] + text@.subrange(start as int, i as int)
                    =~= text@.take(i as int),
            decreases n - i,
        {
            let b: u8 = text.get_ascii(i);
            assert(b as char == text@[i as int]);
            let ghost front = path_text(segments(chain@));
            assert(text@.take(i + 1) =~= text@.take(i as int).push(text@[i as int]));
            assert(text@.subrange(start as int, i + 1) =~= text@.subrange(start as int, i as int).push(
                text@[i as int],
            ));
            if b == 47 {
                if i == start {
                    assert(!char_fits(text@, i as int));
                    return Err(Error::InvalidName);
                }
                let name = String::from_str(text.substring_ascii(start, i));
                proof {
                    assert(is_name(name@)) by {
                        assert(char_fits(text@, start as int));
                        assert forall|j: int| 0 <= j < name@.len() implies is_name_char(
                            #[trigger] name@[j],
                        ) by {
                            assert(char_fits(text@, start + j));
                        }
                    }
                    lemma_path_text_push(segments(chain@), name@);
                    assert(segments(chain@.push(name)) =~= segments(chain@).push(name@));
                }
                chain.push(name);
                start = i + 1;
                assert(path_text(segments(chain@)) + seq!['/'] + text@.subrange(start as int, i + 1)
                    =~= text@.take(i + 1)) by {
                    assert(path_text(segments(chain@)) == front + seq!['/'] + name@);
                    assert(text@.subrange(start as int, i + 1) =~= Seq::<char>::empty());
                }
            } else if i == start {
                if !is_letter_byte(b) {
                    assert(!char_fits(text@, i as int));
                    return Err(Error::InvalidName);
                }
            } else {
                if !is_name_byte(b) {
                    assert(!char_fits(text@, i as int));
                    return Err(Error::InvalidName);
                }
            }
            i = i + 1;
        }
        if start == n {
            return Err(Error::InvalidName);
        }
        let name = String::from_str(text.substring_ascii(start, n));
        proof {
            assert(is_name(name@)) by {
                assert(char_fits(text@, start as int));
                assert forall|j: int| 0 <= j < name@.len() implies is_name_char(#[trigger] name@[j]) by {
                    assert(char_fits(text@, start + j));
                }
            }
            lemma_path_text_push(segments(chain@), name@);
            assert(segments(chain@.push(name)) =~= segments(chain@).push(name@));
        }
        chain.push(name);
        proof {
            assert(text@.take(n as int) =~= text@);
            assert(path_text(segments(chain@)) =~= text@);
            assert(is_path_text(text@));
            lemma_path_text_injective(path_of_text(text@), segments(chain@));
        }
        Ok(Buffer { chain })
    }

    /// The names of the path, in order.
    pub fn get(&self) -> (r: &[String])
        ensures
            segments(r@) == self@,
    {
        self.chain.as_slice()
    }

    /// Whether the path is the root, which has no name.
    pub fn is_root(&self) -> (r: bool)
        ensures
            r == (self@.len() == 0),
    {
        self.chain.len() == 0
    }

    /// The text of the path: each name with a slash before it.
    pub fn to_string(&self) -> (r: String)
        ensures
            r@ == path_text(self@),
    {
        let mut out = String::new();
        let mut i: usize = 0;
        assert(self@.take(0) =~= Seq::<Seq<char>>::empty());
        while i < self.chain.len()
            invariant
                i <= self.chain.len(),
                out@ == path_text(self@.take(i as int)),
            decreases self.chain.len() - i,
        {
            proof {
                reveal_strlit("/");
                assert(self@.take(i + 1) =~= self@.take(i as int).push(self@[i as int]));
                lemma_path_text_push(self@.take(i as int), self@[i as int]);
            }
            out.append("/");
            out.append(self.chain[i].as_str());
            i = i + 1;
        }
        assert(self@.take(i as int) =~= self@);
        out
    }

    /// The path without its last name, or `None` for the root.
    pub fn parent(&self) -> (r: Option<Buffer>)
        ensures
            self@.len() == 0 <==> r is None,
            r matches Some(p) ==> p@ == self@.drop_last(),
    {
        if self.chain.len() == 0 {
            return None;
        }
        let mut chain: Vec<String> = Vec::new();
        let mut i: usize = 0;
        while i + 1 < self.chain.len()
            invariant
                0 < self.chain.len(),
                i + 1 <= self.chain.len(),
                chain@ =~= self.chain@.take(i as int),
            decreases self.chain.len() - i,
        {
            chain.push(self.chain[i].clone());
            i = i + 1;
        }
        assert(segments(chain@) =~= self@.drop_last());
        Some(Buffer { chain })
    }
}

impl std::str::FromStr for Buffer {
    type Err = Error;

    /// Reads a path from its text, as `Buffer::parse` does.
    fn from_str(text: &str) -> (r: Result<Buffer, Error>)
        ensures
            r matches Ok(path) ==> parse_path(text@) == Ok::<Seq<Seq<char>>, Error>(path@) && is_path(
                path@,
            ),
            r matches Err(e) ==> parse_path(text@) == Err::<Seq<Seq<char>>, Error>(e),
    {
        Buffer::parse(text)
    }
}

} // verus!
