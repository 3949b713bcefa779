//! The backend's decisions: which messages it learns, how it reads its
//! keyword datasets, which chain answers a message, and what it answers.

use vstd::prelude::*;
use vstd::string::*;
use crate::request::Request;
use crate::text::{contains_bytes, contains_slice, str_eq, string_from_utf8};
use vstd::utf8::*;
use vstd::slice::{slice_subrange, slice_to_vec};
use crate::text::utf8;

verus! {

/// The fewest bytes (exclusive) a message must have to be learned.
pub const MIN_LEARN_LEN: usize = 10;

/// The most bytes (exclusive) a message may have to be learned.
pub const MAX_LEARN_LEN: usize = 500;

/// Whether a message of UTF-8 bytes `b` is learned: it is longer than 10
/// and shorter than 500 bytes, and holds no `/`, `[` or `]`.
pub open spec fn worth_learning(b: Seq<u8>) -> bool {
    &&& MIN_LEARN_LEN < b.len() < MAX_LEARN_LEN
    &&& !b.contains('/' as u8)
    &&& !b.contains('[' as u8)
    &&& !b.contains(']' as u8)
}

/// A message is learned exactly when it has more than 10 and fewer than 500
/// bytes and none of its bytes is `/`, `[` or `]`.
pub proof fn lemma_learning_rule(b: Seq<u8>)
    ensures
        worth_learning(b) <==> (MIN_LEARN_LEN < b.len() < MAX_LEARN_LEN && forall|i: int|
            0 <= i < b.len() ==> #[trigger] b[i] != '/' as u8 && b[i] != '[' as u8 && b[i]
                != ']' as u8),
{
    if MIN_LEARN_LEN < b.len() < MAX_LEARN_LEN && forall|i: int|
        0 <= i < b.len() ==> #[trigger] b[i] != '/' as u8 && b[i] != '[' as u8 && b[i] != ']' as u8 {
        assert(!b.contains('/' as u8));
        assert(!b.contains('[' as u8));
        assert(!b.contains(']' as u8));
    }
}

/// Whether the backend learns `message`.
pub fn accepts_message(message: &str) -> (res: bool)
    ensures
        res == worth_learning(utf8(message@)),
        res ==> MIN_LEARN_LEN < utf8(message@).len() < MAX_LEARN_LEN,
        forall|i: int|
            0 <= i < utf8(message@).len() && (#[trigger] utf8(message@)[i] == '/' as u8
                || utf8(message@)[i] == '[' as u8 || utf8(message@)[i] == ']' as u8) ==> !res,
        MIN_LEARN_LEN < utf8(message@).len() < MAX_LEARN_LEN && (forall|i: int|
            0 <= i < utf8(message@).len() ==> #[trigger] utf8(message@)[i] != '/' as u8
                && utf8(message@)[i] != '[' as u8 && utf8(message@)[i] != ']' as u8) ==> res,
{
    proof {
        lemma_learning_rule(utf8(message@));
    }
    let b = message.as_bytes();
    if !(b.len() < MAX_LEARN_LEN && b.len() > MIN_LEARN_LEN) {
        return false;
    }
    let mut i: usize = 0;
    while i < b.len()
        invariant
            i <= b@.len(),
            b@ == utf8(message@),
            MIN_LEARN_LEN < b@.len() < MAX_LEARN_LEN,
            forall|j: int|
                0 <= j < i ==> b@[j] != '/' as u8 && b@[j] != '[' as u8 && b@[j] != ']' as u8,
        decreases b@.len() - i,
    {
        let c: u8 = b[i];
        if c == '/' as u8 || c == '[' as u8 || c == ']' as u8 {
            assert(b@[i as int] == c);
            return false;
        }
        i = i + 1;
    }
    true
}

/// The line that stores a learned message in a dataset file: the message
/// and a line break.
pub fn dataset_line(message: String) -> (line: String)
    ensures
        line@ == message@ + "\n"@,
{
    let mut line = message;
    line.append("\n");
    line
}

/// The index of the first line break of `s`, when it has one.
pub open spec fn first_break(s: Seq<char>, i: int) -> bool {
    &&& 0 <= i < s.len()
    &&& s[i] == '\n'
    &&& forall|j: int| 0 <= j < i ==> s[j] != '\n'
}

/// The keyword of a keyword dataset whose text is `s`: its first line
/// without the line break; when `s` has no line break, `s` without its last
/// character.
pub open spec fn keyword_of_text(s: Seq<char>) -> Seq<char> {
    if exists|i: int| first_break(s, i) {
        s.take(choose|i: int| first_break(s, i))
    } else if s.len() > 0 {
        s.drop_last()
    } else {
        s
    }
}

/// The keyword of the keyword dataset whose text is `text`.
pub fn keyword_of(text: &str) -> (keyword: String)
    ensures
        keyword@ == keyword_of_text(text@),
{
    broadcast use vstd::string::axiom_spec_iter, vstd::string::next_postcondition;

    let n: usize = text.unicode_len();
    let mut chars = text.chars();
    let mut i: usize = 0;
    loop
        invariant
            n == text@.len(),
            i <= text@.len(),
            vstd::std_specs::iter::IteratorSpec::remaining(&chars) == text@.skip(i as int),
            forall|j: int| 0 <= j < i ==> text@[j] != '\n',
        ensures
            i == text@.len(),
            forall|j: int| 0 <= j < i ==> text@[j] != '\n',
        decreases text@.len() - i,
    {
        match chars.next() {
            None => {
                break;
            },
            Some(c) => {
                assert(c == text@[i as int]);
                if c == '\n' {
                    proof {
                        assert(first_break(text@, i as int));
                        let k = choose|k: int| first_break(text@, k);
                        if k < i {
                            assert(text@[k] != '\n');
                        } else if k > i {
                            assert(text@[i as int] != '\n');
                        }
                        assert(k == i);
                    }
                    return text.substring_char(0, i).to_owned();
                }
                assert(text@.skip(i as int).drop_first() =~= text@.skip(i + 1));
                i = i + 1;
            },
        }
    }
    assert(!exists|k: int| first_break(text@, k));
    if n > 0 {
        text.substring_char(0, n - 1).to_owned()
    } else {
        text.to_owned()
    }
}

/// The answer given when no chain can answer.
pub fn default_answer() -> (s: String)
    ensures
        s@ == "хуй тебе"@,
{
    "хуй тебе".to_owned()
}

/// What the backend answers, given what its chains generated.
pub fn answer_or_default(answer: Option<String>) -> (s: String)
    ensures
        answer matches Some(a) ==> s@ == a@,
        answer is None ==> s@ == "хуй тебе"@,
{
    match answer {
        Some(a) => a,
        None => default_answer(),
    }
}

/// What the backend does with a request.
pub enum Route {
    /// Learn the text.
    Learn(String),
    /// Answer the text.
    Answer(String),
}

/// What the backend does with `request`: a request with write intent is
/// learned, any other is answered.
pub fn route(request: Request) -> (r: Route)
    ensures
        request.write_intent ==> (r matches Route::Learn(t) && t@ == request.content@),
        !request.write_intent ==> (r matches Route::Answer(t) && t@ == request.content@),
{
    if request.write_intent {
        Route::Learn(request.content)
    } else {
        Route::Answer(request.content)
    }
}


/// The lowercase form of a text, as `str::to_lowercase` computes it by the
/// Unicode tables of the standard library.
pub uninterp spec fn lowercase(s: Seq<char>) -> Seq<char>;

/// A character of ASCII or of the basic Cyrillic block (U+0400 to U+045F).
pub open spec fn simple_char(c: char) -> bool {
    (c as u32) < 0x80 || 0x400 <= (c as u32) <= 0x45f
}

/// A text made of such characters only.
pub open spec fn simple_text(s: Seq<char>) -> bool {
    forall|i: int| 0 <= i < s.len() ==> simple_char(#[trigger] s[i])
}

/// The Unicode lowercase of a character of ASCII or of the basic Cyrillic
/// block: `A`..`Z` become `a`..`z`, `А`..`Я` (U+0410 to U+042F) become
/// `а`..`я`, `Ѐ`..`Џ` (U+0400 to U+040F) become `ѐ`..`џ` (U+0450 to U+045F),
/// and every other such character stays as it is.
pub open spec fn simple_lower(c: char) -> char {
    let u = c as u32;
    if (0x41 <= u <= 0x5a) || (0x410 <= u <= 0x42f) {
        (u + 0x20) as char
    } else if 0x400 <= u <= 0x40f {
        (u + 0x50) as char
    } else {
        c
    }
}

/// The lowercase form of a text made of ASCII and basic Cyrillic
/// characters: each character in turn is lowered.
pub open spec fn simple_lowercase(s: Seq<char>) -> Seq<char> {
    s.map_values(|c: char| simple_lower(c))
}

/// The lowercase form of `s`.
///
/// Trusted: calls `str::to_lowercase`; its result depends on `s` alone, and
/// the contract names it `lowercase`. Of the Unicode mapping it states only
/// what the standard library's case tables give for ASCII and the basic
/// Cyrillic block: there each character is lowered on its own to the one
/// character `simple_lower` gives (no character there expands, and the
/// final-sigma rule concerns `Σ`, which lies outside these characters).
#[verifier::external_body]
pub(crate) fn to_lowercase(s: &str) -> (res: String)
    ensures
        res@ == lowercase(s@),
        simple_text(s@) ==> res@ == simple_lowercase(s@),
{
    s.to_lowercase()
}

/// No keyword occurs twice in `words`.
pub open spec fn distinct_words(words: Seq<Seq<char>>) -> bool {
    forall|i: int, j: int| 0 <= i < j < words.len() ==> words[i] != words[j]
}

/// Whether the keyword `word` occurs in a text of UTF-8 bytes `text`.
pub open spec fn mentions(text: Seq<u8>, word: Seq<char>) -> bool {
    contains_bytes(text, utf8(word))
}

/// The index of the first of `words` that occurs in `text`, if any.
pub open spec fn first_mentioned(words: Seq<Seq<char>>, text: Seq<u8>) -> Option<int> {
    if exists|i: int| 0 <= i < words.len() && #[trigger] mentions(text, words[i]) {
        Some(
            choose|i: int|
                0 <= i < words.len() && #[trigger] mentions(text, words[i]) && forall|j: int|
                    0 <= j < i ==> !mentions(text, words[j]),
        )
    } else {
        None
    }
}

/// The keywords of the keyword datasets, in the order they were read; the
/// chain of the `i`-th keyword answers messages that mention it.
pub struct Keywords {
    words: Vec<String>,
}

impl View for Keywords {
    type V = Seq<Seq<char>>;

    closed spec fn view(&self) -> Seq<Seq<char>> {
        self.words@.map_values(|w: String| w@)
    }
}

impl Keywords {
    #[verifier::type_invariant]
    closed spec fn no_repeats(self) -> bool {
        distinct_words(self@)
    }

    /// No keywords.
    pub fn new() -> (k: Self)
        ensures
            k@ == Seq::<Seq<char>>::empty(),
            distinct_words(k@),
    {
        let k = Keywords { words: Vec::new() };
        assert(k@ =~= Seq::<Seq<char>>::empty());
        k
    }

    /// The number of keywords.
    pub fn len(&self) -> (n: usize)
        ensures
            n == self@.len(),
    {
        self.words.len()
    }

    /// The index of `keyword`, if it is one of the keywords.
    pub fn position(&self, keyword: &str) -> (res: Option<usize>)
        ensures
            res matches Some(i) ==> i < self@.len() && self@[i as int] == keyword@,
            res is None ==> !self@.contains(keyword@),
    {
        let mut i: usize = 0;
        while i < self.words.len()
            invariant
                i <= self@.len(),
                self@.len() == self.words@.len(),
                forall|j: int| 0 <= j < i ==> self@[j] != keyword@,
            decreases self@.len() - i,
        {
            if str_eq(self.words[i].as_str(), keyword) {
                return Some(i);
            }
            i = i + 1;
        }
        assert forall|j: int| 0 <= j < self@.len() implies self@[j] != keyword@ by {}
        None
    }

    /// Adds `keyword` and returns its index; a keyword that is already there
    /// keeps its index and the keywords stay as they are.
    pub fn insert(&mut self, keyword: String) -> (i: usize)
        ensures
            i < final(self)@.len(),
            final(self)@[i as int] == keyword@,
            old(self)@.contains(keyword@) ==> final(self)@ == old(self)@,
            !old(self)@.contains(keyword@) ==> final(self)@ == old(self)@.push(keyword@),
            distinct_words(final(self)@),
    {
        proof {
            use_type_invariant(&*self);
        }
        match self.position(keyword.as_str()) {
            Some(i) => {
                proof {
                    use_type_invariant(&*self);
                }
                i
            },
            None => {
                let ghost before = self@;
                let i: usize = self.words.len();
                let mut words = Vec::new();
                std::mem::swap(&mut words, &mut self.words);
                words.push(keyword);
                assert(words@.map_values(|w: String| w@) =~= before.push(keyword@));
                self.words = words;
                assert(self@ =~= before.push(keyword@));
                proof {
                    use_type_invariant(&*self);
                }
                i
            },
        }
    }

    /// The index of the first keyword that occurs in `text`.
    pub fn pick(&self, text: &str) -> (res: Option<usize>)
        ensures
            res matches Some(i) ==> first_mentioned(self@, utf8(text@)) == Some(i as int),
            res is None ==> first_mentioned(self@, utf8(text@)) is None,
            res matches Some(i) ==> i < self@.len() && mentions(utf8(text@), self@[i as int])
                && forall|j: int| 0 <= j < i ==> !mentions(utf8(text@), #[trigger] self@[j]),
            res is None ==> forall|j: int|
                0 <= j < self@.len() ==> !mentions(utf8(text@), #[trigger] self@[j]),
    {
        let b = text.as_bytes();
        let mut i: usize = 0;
        while i < self.words.len()
            invariant
                i <= self@.len(),
                self@.len() == self.words@.len(),
                b@ == utf8(text@),
                forall|j: int| 0 <= j < i ==> !mentions(b@, self@[j]),
            decreases self@.len() - i,
        {
            if contains_slice(b, self.words[i].as_str().as_bytes()) {
                proof {
                    assert(mentions(b@, self@[i as int]));
                    let k = choose|k: int|
                        0 <= k < self@.len() && #[trigger] mentions(b@, self@[k]) && forall|j: int|
                            0 <= j < k ==> !mentions(b@, self@[j]);
                    if k < i {
                    } else if k > i {
                        assert(!mentions(b@, self@[i as int]));
                    }
                }
                return Some(i);
            }
            i = i + 1;
        }
        None
    }

    /// The index of the first keyword that occurs in the lowercase form of
    /// `message`.
    pub fn chain_for(&self, message: &str) -> (res: Option<usize>)
        ensures
            res matches Some(i) ==> first_mentioned(self@, utf8(lowercase(message@))) == Some(
                i as int,
            ),
            res is None ==> first_mentioned(self@, utf8(lowercase(message@))) is None,
            res matches Some(i) ==> i < self@.len() && mentions(
                utf8(lowercase(message@)),
                self@[i as int],
            ) && forall|j: int|
                0 <= j < i ==> !mentions(utf8(lowercase(message@)), #[trigger] self@[j]),
            res is None ==> forall|j: int|
                0 <= j < self@.len() ==> !mentions(utf8(lowercase(message@)), #[trigger] self@[j]),
            simple_text(message@) ==> (res matches Some(i) ==> i < self@.len() && mentions(
                utf8(simple_lowercase(message@)),
                self@[i as int],
            ) && forall|j: int|
                0 <= j < i ==> !mentions(utf8(simple_lowercase(message@)), #[trigger] self@[j])),
            simple_text(message@) ==> (res is None ==> forall|j: int|
                0 <= j < self@.len() ==> !mentions(
                    utf8(simple_lowercase(message@)),
                    #[trigger] self@[j],
                )),
    {
        let lowered = to_lowercase(message);
        self.pick(lowered.as_str())
    }
}


/// The line break byte.
pub open spec fn newline() -> u8 {
    '\n' as u8
}

/// The pieces of `b` between the bytes `sep`, in order, as `str::split`
/// yields them: a text with `k` separators has `k + 1` pieces.
pub open spec fn split_bytes(b: Seq<u8>, sep: u8) -> Seq<Seq<u8>>
    decreases b.len(),
{
    if b.len() == 0 {
        seq![Seq::<u8>::empty()]
    } else {
        let prev = split_bytes(b.drop_last(), sep);
        if b.last() == sep {
            prev.push(Seq::<u8>::empty())
        } else {
            prev.update(prev.len() - 1, prev.last().push(b.last()))
        }
    }
}

/// The pieces joined, with `sep` between each two.
pub open spec fn join_bytes(pieces: Seq<Seq<u8>>, sep: u8) -> Seq<u8>
    decreases pieces.len(),
{
    if pieces.len() == 0 {
        Seq::<u8>::empty()
    } else if pieces.len() == 1 {
        pieces[0]
    } else {
        join_bytes(pieces.drop_last(), sep).push(sep) + pieces.last()
    }
}

proof fn lemma_split_nonempty(b: Seq<u8>, sep: u8)
    ensures
        split_bytes(b, sep).len() >= 1,
    decreases b.len(),
{
    if b.len() > 0 {
        lemma_split_nonempty(b.drop_last(), sep);
    }
}

proof fn lemma_join_extend_last(pieces: Seq<Seq<u8>>, sep: u8, c: u8)
    requires
        pieces.len() >= 1,
    ensures
        join_bytes(pieces.update(pieces.len() - 1, pieces.last().push(c)), sep) == join_bytes(
            pieces,
            sep,
        ).push(c),
{
    let updated = pieces.update(pieces.len() - 1, pieces.last().push(c));
    if pieces.len() > 1 {
        assert(updated.drop_last() =~= pieces.drop_last());
        assert(join_bytes(pieces.drop_last(), sep).push(sep) + pieces.last().push(c) =~= (
        join_bytes(pieces.drop_last(), sep).push(sep) + pieces.last()).push(c));
    }
}

/// Splitting a text at a separator and joining the pieces with it gives the
/// text back, and no piece holds the separator.
pub proof fn lemma_split_join(b: Seq<u8>, sep: u8)
    ensures
        join_bytes(split_bytes(b, sep), sep) == b,
        forall|k: int|
            0 <= k < split_bytes(b, sep).len() ==> !(#[trigger] split_bytes(b, sep)[k]).contains(
                sep,
            ),
    decreases b.len(),
{
    if b.len() > 0 {
        let prev = split_bytes(b.drop_last(), sep);
        lemma_split_join(b.drop_last(), sep);
        lemma_split_nonempty(b.drop_last(), sep);
        if b.last() == sep {
            let now = prev.push(Seq::<u8>::empty());
            assert(now.drop_last() =~= prev);
            assert(join_bytes(now, sep) =~= b.drop_last().push(sep));
            assert(b.drop_last().push(sep) =~= b);
            assert forall|k: int| 0 <= k < now.len() implies !(#[trigger] now[k]).contains(sep) by {
                if k < prev.len() {
                    assert(now[k] == prev[k]);
                }
            }
        } else {
            let c = b.last();
            let now = prev.update(prev.len() - 1, prev.last().push(c));
            lemma_join_extend_last(prev, sep, c);
            assert(b.drop_last().push(c) =~= b);
            assert forall|k: int| 0 <= k < now.len() implies !(#[trigger] now[k]).contains(sep) by {
                if k < prev.len() - 1 {
                    assert(now[k] == prev[k]);
                } else {
                    let piece = prev.last().push(c);
                    assert(!prev[prev.len() - 1].contains(sep));
                    if piece.contains(sep) {
                        let j = choose|j: int| 0 <= j < piece.len() && piece[j] == sep;
                        if j < prev.last().len() {
                            assert(prev.last()[j] == sep);
                        }
                    }
                }
            }
        }
    }
}

proof fn lemma_split_step(b: Seq<u8>, sep: u8, i: int)
    requires
        0 <= i < b.len(),
    ensures
        split_bytes(b.take(i + 1), sep) == (if b[i] == sep {
            split_bytes(b.take(i), sep).push(Seq::<u8>::empty())
        } else {
            let prev = split_bytes(b.take(i), sep);
            prev.update(prev.len() - 1, prev.last().push(b[i]))
        }),
{
    assert(b.take(i + 1).drop_last() =~= b.take(i));
}

/// The lines of a dataset text: the pieces between its line breaks.
pub fn lines(text: &str) -> (res: Vec<String>)
    ensures
        res@.len() == split_bytes(utf8(text@), newline()).len(),
        forall|k: int|
            0 <= k < res@.len() ==> utf8(#[trigger] res@[k]@) == split_bytes(
                utf8(text@),
                newline(),
            )[k],
{
    broadcast use encode_utf8_valid_utf8, decode_utf8_encode_utf8;

    let b = text.as_bytes();
    let ghost bs = b@;
    let mut res: Vec<String> = Vec::new();
    let mut start: usize = 0;
    let mut i: usize = 0;
    proof {
        assert(bs.take(0) =~= Seq::<u8>::empty());
        assert(bs.subrange(0, bs.len() as int) =~= bs);
    }
    while i < b.len()
        invariant
            b@ == bs,
            bs == utf8(text@),
            start <= i <= bs.len(),
            valid_utf8(bs.subrange(start as int, bs.len() as int)),
            split_bytes(bs.take(i as int), newline()) == res@.map_values(|s: String| utf8(s@)).push(
                bs.subrange(start as int, i as int),
            ),
        decreases bs.len() - i,
    {
        proof {
            lemma_split_step(bs, newline(), i as int);
            lemma_split_nonempty(bs.take(i as int), newline());
        }
        if b[i] == '\n' as u8 {
            let ghost rest = bs.subrange(start as int, bs.len() as int);
            let ghost k = i - start;
            proof {
                is_char_boundary_iff_not_is_continuation_byte(rest, k);
                assert(rest[k] == bs[i as int]);
                assert(is_char_boundary(rest, k));
                valid_utf8_split(rest, k);
                assert(valid_utf8(rest.subrange(0, k)));
                assert(rest.subrange(0, k) =~= bs.subrange(start as int, i as int));
                assert(valid_utf8(bs.subrange(start as int, i as int)));
                let tail = rest.subrange(k, rest.len() as int);
                assert(tail[0] == '\n' as u8);
                assert(pop_first_scalar(tail) =~= bs.subrange(i + 1, bs.len() as int));
            }
            let piece = slice_to_vec(slice_subrange(b, start, i));
            let ghost piece_bytes = piece@;
            assert(valid_utf8(piece_bytes));
            let line = string_from_utf8(piece).unwrap();
            proof {
                decode_utf8_encode_utf8(piece_bytes);
                assert(utf8(line@) == bs.subrange(start as int, i as int));
            }
            let ghost before = res@;
            res.push(line);
            proof {
                assert(res@.map_values(|s: String| utf8(s@)) =~= before.map_values(
                    |s: String| utf8(s@),
                ).push(bs.subrange(start as int, i as int)));
                assert(bs.subrange(i + 1, i + 1) =~= Seq::<u8>::empty());
            }
            start = i + 1;
        } else {
            proof {
                assert(bs.subrange(start as int, i + 1) =~= bs.subrange(start as int, i as int).push(
                    bs[i as int],
                ));
                let prev = split_bytes(bs.take(i as int), newline());
                assert(prev.update(prev.len() - 1, prev.last().push(bs[i as int])) =~= res@.map_values(
                    |s: String| utf8(s@),
                ).push(bs.subrange(start as int, i + 1)));
            }
        }
        i = i + 1;
    }
    let piece = slice_to_vec(slice_subrange(b, start, b.len()));
    let ghost piece_bytes = piece@;
    let line = string_from_utf8(piece).unwrap();
    proof {
        decode_utf8_encode_utf8(piece_bytes);
    }
    let ghost before = res@;
    res.push(line);
    proof {
        assert(bs.take(bs.len() as int) =~= bs);
        assert(res@.map_values(|s: String| utf8(s@)) =~= before.map_values(|s: String| utf8(s@)).push(
            bs.subrange(start as int, bs.len() as int),
        ));
        assert forall|k: int| 0 <= k < res@.len() implies utf8(#[trigger] res@[k]@) == split_bytes(
            utf8(text@),
            newline(),
        )[k] by {
            assert(res@.map_values(|s: String| utf8(s@))[k] == utf8(res@[k]@));
        }
    }
    res
}


/// Bytes `m` without a separator extend the last piece of `d`.
proof fn lemma_split_extend(d: Seq<u8>, m: Seq<u8>, sep: u8)
    requires
        !m.contains(sep),
    ensures
        split_bytes(d + m, sep) == split_bytes(d, sep).update(
            split_bytes(d, sep).len() - 1,
            split_bytes(d, sep).last() + m,
        ),
    decreases m.len(),
{
    lemma_split_nonempty(d, sep);
    let p = split_bytes(d, sep);
    if m.len() == 0 {
        assert(d + m =~= d);
        assert(p.last() + m =~= p.last());
        assert(p.update(p.len() - 1, p.last()) =~= p);
    } else {
        let m0 = m.drop_last();
        let c = m.last();
        assert(!m0.contains(sep)) by {
            if m0.contains(sep) {
                let j = choose|j: int| 0 <= j < m0.len() && m0[j] == sep;
                assert(m[j] == sep);
            }
        }
        assert(c != sep) by {
            assert(m[m.len() - 1] == c);
        }
        lemma_split_extend(d, m0, sep);
        assert((d + m).drop_last() =~= d + m0);
        assert((d + m).last() == c);
        let prev = split_bytes(d + m0, sep);
        assert(prev.last() == p.last() + m0);
        assert(p.last() + m =~= (p.last() + m0).push(c));
        assert(prev.update(prev.len() - 1, prev.last().push(c)) =~= p.update(
            p.len() - 1,
            p.last() + m,
        ));
    }
}

/// A learned message comes back from its dataset: appending the bytes of a
/// message without line breaks, and a line break, to a dataset whose text
/// ends with a line break (or is empty) adds that message as the last line
/// read before the final empty piece.
pub proof fn lemma_learned_line_reads_back(dataset: Seq<u8>, message: Seq<u8>)
    requires
        !message.contains(newline()),
        dataset.len() == 0 || dataset.last() == newline(),
    ensures
        split_bytes(dataset + message.push(newline()), newline()) == split_bytes(
            dataset,
            newline(),
        ).drop_last().push(message).push(Seq::<u8>::empty()),
{
    let sep = newline();
    lemma_split_nonempty(dataset, sep);
    let p = split_bytes(dataset, sep);
    assert(p.last() == Seq::<u8>::empty()) by {
        if dataset.len() > 0 {
            lemma_split_nonempty(dataset.drop_last(), sep);
        }
    }
    lemma_split_extend(dataset, message, sep);
    let whole = dataset + message.push(sep);
    assert(whole.drop_last() =~= dataset + message);
    assert(whole.last() == sep);
    assert(p.last() + message =~= message);
    assert(p.update(p.len() - 1, message) =~= p.drop_last().push(message));
}

/// A keyword stands at one index only: the index `insert` returns for a
/// keyword is the one `position` finds.
pub proof fn lemma_keyword_index_unique(words: Seq<Seq<char>>, keyword: Seq<char>, i: int, j: int)
    requires
        distinct_words(words),
        0 <= i < words.len(),
        0 <= j < words.len(),
        words[i] == keyword,
        words[j] == keyword,
    ensures
        i == j,
{
    if i < j {
        assert(words[i] != words[j]);
    } else if j < i {
        assert(words[j] != words[i]);
    }
}


/// The keyword of a keyword dataset is the beginning of its text up to its
/// first line break, without it; a text with no line break loses only its
/// last character.
pub proof fn lemma_keyword_of_text(s: Seq<char>)
    ensures
        keyword_of_text(s).len() <= s.len(),
        keyword_of_text(s) == s.take(keyword_of_text(s).len() as int),
        forall|j: int| 0 <= j < keyword_of_text(s).len() ==> #[trigger] s[j] != '\n',
        s.contains('\n') ==> s[keyword_of_text(s).len() as int] == '\n',
        !s.contains('\n') && s.len() > 0 ==> keyword_of_text(s).len() == s.len() - 1,
        !s.contains('\n') && s.len() == 0 ==> keyword_of_text(s).len() == 0,
{
    if s.contains('\n') {
        let w = choose|w: int| 0 <= w < s.len() && s[w] == '\n';
        let mut k: int = w;
        assert(exists|i: int| first_break(s, i)) by {
            // the earliest line break
            let first = choose|i: int| 0 <= i <= w && s[i] == '\n' && forall|j: int|
                0 <= j < i ==> s[j] != '\n';
            lemma_earliest_break(s, w);
        }
        let i = choose|i: int| first_break(s, i);
        assert(keyword_of_text(s) == s.take(i));
        assert(s.take(i).take(i) =~= s.take(i));
    } else {
        assert(!exists|i: int| first_break(s, i));
        if s.len() > 0 {
            assert(s.drop_last() =~= s.take(s.len() - 1));
            assert forall|j: int| 0 <= j < s.len() - 1 implies #[trigger] s[j] != '\n' by {
                if s[j] == '\n' {
                    assert(s.contains('\n'));
                }
            }
        } else {
            assert(s.take(0) =~= s);
        }
    }
}

proof fn lemma_earliest_break(s: Seq<char>, w: int)
    requires
        0 <= w < s.len(),
        s[w] == '\n',
    ensures
        exists|i: int| first_break(s, i),
    decreases w,
{
    if exists|j: int| 0 <= j < w && s[j] == '\n' {
        let j = choose|j: int| 0 <= j < w && s[j] == '\n';
        lemma_earliest_break(s, j);
    } else {
        assert(first_break(s, w));
    }
}

} // verus!
