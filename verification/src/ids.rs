//! Identifiers of batch entries.

use vstd::prelude::*;
use vstd::string::*;
use vstd::utf8::*;
use crate::text::{chars_of, decimal, decimal_u64};

verus! {

broadcast use vstd::string::group_string_axioms;

/// The digits of a UUID.
pub open spec fn is_lower_hex(c: char) -> bool {
    ('0' <= c <= '9') || ('a' <= c <= 'f')
}

/// A random (version 4) UUID in its hyphenated lower-case form.
pub open spec fn is_uuid_v4(s: Seq<char>) -> bool {
    &&& s.len() == 36
    &&& forall|i: int|
        0 <= i < 36 ==> if i == 8 || i == 13 || i == 18 || i == 23 {
            #[trigger] s[i] == '-'
        } else {
            is_lower_hex(s[i])
        }
    &&& s[14] == '4'
    &&& s[19] == '8' || s[19] == '9' || s[19] == 'a' || s[19] == 'b'
}

/// Draws a fresh identifier with `uuid::Uuid::new_v4`. The digits are random: what is claimed is
/// the hyphenated form, the version digit and the variant digit. That two draws differ is not
/// claimed.
#[verifier::external_body]
fn uuid_text() -> (r: String)
    ensures
        is_uuid_v4(r@),
{
    uuid::Uuid::new_v4().hyphenated().to_string()
}

/// Draws a fresh identifier for a message or a batch.
pub fn new_message_id() -> (r: String)
    ensures
        is_uuid_v4(r@),
        valid_batch_id(r@),
{
    let r = uuid_text();
    proof {
        uuid_is_valid_batch_id(r@);
    }
    r
}

/// Draws identifiers, and remembers for the proofs which ones it drew.
pub struct IdSource {
    drawn: Ghost<Seq<Seq<char>>>,
}

impl View for IdSource {
    type V = Seq<Seq<char>>;

    /// What was drawn, in order.
    closed spec fn view(&self) -> Seq<Seq<char>> {
        self.drawn@
    }
}

impl IdSource {
    /// Nothing has been drawn.
    pub fn new() -> (r: Self)
        ensures
            r@ == Seq::<Seq<char>>::empty(),
    {
        IdSource { drawn: Ghost(Seq::empty()) }
    }

    /// Draws an identifier.
    pub fn draw(&mut self) -> (r: String)
        ensures
            final(self)@ == old(self)@.push(r@),
            is_uuid_v4(r@),
            valid_batch_id(r@),
    {
        let r = new_message_id();
        proof {
            self.drawn@ = self.drawn@.push(r@);
        }
        r
    }
}

/// The most bytes that a batch entry identifier may take.
pub const MAX_BATCH_ID_BYTES: usize = 80;

/// Whether Unicode calls a character alphabetic or numeric.
pub uninterp spec fn unicode_alphanumeric(c: char) -> bool;

/// Asks `char::is_alphanumeric`, whose answer depends on the character alone.
#[verifier::external_body]
fn std_alphanumeric(c: char) -> (r: bool)
    ensures
        r == unicode_alphanumeric(c),
{
    c.is_alphanumeric()
}

/// The letters and digits of ASCII.
pub open spec fn ascii_alphanumeric(c: char) -> bool {
    ('0' <= c <= '9') || ('A' <= c <= 'Z') || ('a' <= c <= 'z')
}

/// The characters that a batch entry identifier may hold.
pub open spec fn batch_id_char(c: char) -> bool {
    ||| c == '-'
    ||| c == '_'
    ||| if c <= '\u{7f}' {
        ascii_alphanumeric(c)
    } else {
        unicode_alphanumeric(c)
    }
}

/// Whether a text can name a batch entry.
pub open spec fn valid_batch_id(s: Seq<char>) -> bool {
    &&& 0 < s.len()
    &&& encode_utf8(s).len() <= MAX_BATCH_ID_BYTES
    &&& forall|i: int| 0 <= i < s.len() ==> batch_id_char(#[trigger] s[i])
}

fn allowed(c: char) -> (r: bool)
    ensures
        r == batch_id_char(c),
{
    if c == '-' || c == '_' {
        true
    } else if c <= '\u{7f}' {
        ('0' <= c && c <= '9') || ('A' <= c && c <= 'Z') || ('a' <= c && c <= 'z')
    } else {
        std_alphanumeric(c)
    }
}

/// The identifier of an entry in a batch request.
#[derive(Debug)]
pub struct BatchId(String);

impl View for BatchId {
    type V = Seq<char>;

    closed spec fn view(&self) -> Seq<char> {
        self.0@
    }
}

/// What is said of an identifier that is refused.
pub open spec fn batch_id_error(s: Seq<char>) -> Seq<char> {
    if s.len() == 0 {
        "Batch ID cannot be empty"@
    } else if encode_utf8(s).len() > MAX_BATCH_ID_BYTES {
        "Batch ID exceeds maximum length: "@ + decimal(encode_utf8(s).len()) + " > 80 characters"@
    } else {
        "Invalid character in Batch ID: '"@ + seq![s[first_refused(s)]]
            + "'. Allowed: alphanumeric, '-', '_'"@
    }
}

/// The position of the first character that an identifier may not hold.
pub open spec fn first_refused(s: Seq<char>) -> int
    decreases s.len(),
{
    if s.len() == 0 || !batch_id_char(s[0]) {
        0
    } else {
        1 + first_refused(s.drop_first())
    }
}

proof fn lemma_first_refused(s: Seq<char>, i: int)
    requires
        0 <= i < s.len(),
        !batch_id_char(s[i]),
        forall|j: int| 0 <= j < i ==> batch_id_char(#[trigger] s[j]),
    ensures
        first_refused(s) == i,
    decreases i,
{
    if i > 0 {
        assert(batch_id_char(s[0]));
        assert forall|j: int| 0 <= j < i - 1 implies batch_id_char(#[trigger] s.drop_first()[j]) by {
            assert(batch_id_char(s[j + 1]));
        }
        lemma_first_refused(s.drop_first(), i - 1);
    }
}

impl BatchId {
    #[verifier::type_invariant]
    spec fn valid(self) -> bool {
        valid_batch_id(self.0@)
    }

    /// Accepts a text that can name a batch entry.
    pub fn new(id: String) -> (r: Result<Self, String>)
        ensures
            r is Ok <==> valid_batch_id(id@),
            match r {
                Ok(accepted) => accepted@ == id@,
                Err(message) => message@ == batch_id_error(id@),
            },
    {
        if id.as_str().is_empty() {
            return Err("Batch ID cannot be empty".to_string());
        }
        let bytes: usize = id.as_str().as_bytes().len();
        if bytes > MAX_BATCH_ID_BYTES {
            let mut message = "Batch ID exceeds maximum length: ".to_string();
            message.append(decimal_u64(bytes as u64).as_str());
            message.append(" > 80 characters");
            return Err(message);
        }
        let chars = chars_of(id.as_str());
        let mut i: usize = 0;
        while i < chars.len()
            invariant
                i <= chars@.len(),
                chars@ == id@,
                0 < id@.len(),
                encode_utf8(id@).len() <= MAX_BATCH_ID_BYTES,
                forall|j: int| 0 <= j < i ==> batch_id_char(#[trigger] id@[j]),
            decreases chars@.len() - i,
        {
            if !allowed(chars[i]) {
                proof {
                    lemma_first_refused(id@, i as int);
                }
                let mut message = "Invalid character in Batch ID: '".to_string();
                message.append(id.as_str().substring_char(i, i + 1));
                message.append("'. Allowed: alphanumeric, '-', '_'");
                assert(id@.subrange(i as int, i + 1) =~= seq![id@[i as int]]);
                assert(!valid_batch_id(id@)) by {
                    assert(!batch_id_char(id@[i as int]));
                }
                return Err(message);
            }
            i += 1;
        }
        Ok(BatchId(id))
    }
}

impl Clone for BatchId {
    fn clone(&self) -> (r: Self)
        ensures
            r@ == self@,
    {
        proof {
            use_type_invariant(self);
        }
        BatchId(self.0.clone())
    }
}

impl AsRef<str> for BatchId {
    fn as_ref(&self) -> (r: &str)
        ensures
            r@ == self@,
            valid_batch_id(r@),
    {
        proof {
            use_type_invariant(self);
        }
        self.0.as_str()
    }
}

/// A freshly drawn identifier can name a batch entry.
pub proof fn uuid_is_valid_batch_id(s: Seq<char>)
    requires
        is_uuid_v4(s),
    ensures
        valid_batch_id(s),
{
    assert forall|i: int| 0 <= i < s.len() implies batch_id_char(#[trigger] s[i]) by {}
    assert(is_ascii_chars(s));
    is_ascii_chars_encode_utf8(s);
}

proof fn lemma_no_character_before_the_first(c: char)
    ensures
        '\0' <= c,
{
}

/// An identifier of ASCII characters is valid exactly where it holds between one and eighty of them,
/// and each is a letter, a digit, a hyphen or an underscore.
pub proof fn an_ascii_id_holds_letters_digits_hyphens_and_underscores(s: Seq<char>)
    requires
        forall|i: int| 0 <= i < s.len() ==> #[trigger] s[i] <= '\u{7f}',
    ensures
        valid_batch_id(s) <==> {
            &&& 1 <= s.len() <= 80
            &&& forall|i: int|
                0 <= i < s.len() ==> ('a' <= #[trigger] s[i] <= 'z') || ('A' <= s[i] <= 'Z') || (
                '0' <= s[i] <= '9') || s[i] == '-' || s[i] == '_'
        },
{
    assert forall|i: int| 0 <= i < s.len() implies '\0' <= #[trigger] s[i] <= '\u{7f}' by {
        lemma_no_character_before_the_first(s[i]);
    }
    assert(is_ascii_chars(s));
    is_ascii_chars_encode_utf8(s);
    if valid_batch_id(s) {
        assert forall|i: int| 0 <= i < s.len() implies ('a' <= #[trigger] s[i] <= 'z') || ('A'
            <= s[i] <= 'Z') || ('0' <= s[i] <= '9') || s[i] == '-' || s[i] == '_' by {
            assert(batch_id_char(s[i]));
        }
    }
}

/// Any identifier is valid exactly where it is not empty, takes no more than eighty bytes, and each of
/// its characters may stand in one. Beyond ASCII, that is what Unicode calls a letter or a digit.
pub proof fn each_character_of_an_id_may_stand_in_one(a: Seq<char>, b: Seq<char>, c: char)
    ensures
        valid_batch_id(a + b) ==> encode_utf8(a + b).len() <= 80 && (a.len() > 0 || b.len() > 0),
        !valid_batch_id(Seq::<char>::empty()),
        a.len() > 0 && b.len() > 0 && encode_utf8(a).len() <= 80 && encode_utf8(b).len() <= 80
            && encode_utf8(a + b).len() <= 80 ==> (valid_batch_id(a + b) <==> valid_batch_id(a)
            && valid_batch_id(b)),
        c > '\u{7f}' ==> (batch_id_char(c) <==> unicode_alphanumeric(c)),
        c <= '\u{7f}' ==> (batch_id_char(c) <==> ('a' <= c <= 'z') || ('A' <= c <= 'Z') || ('0' <= c
            <= '9') || c == '-' || c == '_'),
{
    let all = a + b;
    if valid_batch_id(all) {
        assert forall|i: int| 0 <= i < a.len() implies batch_id_char(#[trigger] a[i]) by {
            assert(batch_id_char(all[i]));
        }
        assert forall|i: int| 0 <= i < b.len() implies batch_id_char(#[trigger] b[i]) by {
            assert(batch_id_char(all[a.len() + i]));
        }
    }
}

/// What is said of a refused identifier: that it is empty, or how long it is, or which character is
/// the first that it may not hold.
pub proof fn a_refused_id_is_told_why(s: Seq<char>, i: int)
    requires
        !valid_batch_id(s),
    ensures
        s.len() == 0 ==> batch_id_error(s) == "Batch ID cannot be empty"@,
        s.len() > 0 && encode_utf8(s).len() > 80 ==> batch_id_error(s)
            == "Batch ID exceeds maximum length: "@ + decimal(encode_utf8(s).len())
            + " > 80 characters"@,
        encode_utf8(s).len() <= 80 && 0 <= i < s.len() && !batch_id_char(s[i]) && (forall|j: int|
            0 <= j < i ==> batch_id_char(#[trigger] s[j])) ==> batch_id_error(s)
            == "Invalid character in Batch ID: '"@ + seq![s[i]]
            + "'. Allowed: alphanumeric, '-', '_'"@,
{
    if 0 <= i < s.len() && !batch_id_char(s[i]) && (forall|j: int|
        0 <= j < i ==> batch_id_char(#[trigger] s[j])) {
        lemma_first_refused(s, i);
    }
}

} // verus!
