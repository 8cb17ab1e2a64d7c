//! Sender identity: which header names the sender of a message, and how the
//! raw header value is reduced to a bare address.

use regex::Regex;
use vstd::prelude::*;
use vstd::std_specs::iter::IteratorSpec;

verus! {

/// One header of a fetched message. The provider may leave either part out.
#[derive(Clone, Debug)]
pub struct Header {
    pub name: Option<String>,
    pub value: Option<String>,
}

/// A fetched message: its identifier and its headers in the provider's order.
#[derive(Clone, Debug)]
pub struct Message {
    pub id: String,
    pub headers: Vec<Header>,
}

/// What can be wrong with a fetched message.
#[derive(Clone, Copy, Debug, PartialEq, Eq, Structural)]
pub enum DataError {
    /// The header that names the sender carries no value.
    MissingSenderValue,
}

/// Address right after the first opening angle bracket; what stands before
/// the bracket and after the address is ignored.
pub const BRACKETED_ADDRESS: &'static str = "^[^<]*<([\\w\\-\\.]+@([\\w-]+\\.)+[\\w-]{2,4}).*$";

/// A value that is an address and nothing else.
pub const BARE_ADDRESS: &'static str = "^([\\w\\-\\.]+@([\\w-]+\\.)+[\\w-]{2,4})$";

/// The text of capture group 1 for each successive non-overlapping match of
/// `pattern` in `haystack` (`None` for a match in which the group took no
/// part), or `None` where `pattern` does not compile to an expression.
pub uninterp spec fn first_groups(pattern: Seq<char>, haystack: Seq<char>) -> Option<
    Seq<Option<Seq<char>>>,
>;

/// Whether `c` has the Unicode property `White_Space`.
pub open spec fn is_white_space(c: char) -> bool {
    let n = c as u32;
    ||| 0x09 <= n <= 0x0d
    ||| n == 0x20
    ||| n == 0x85
    ||| n == 0xa0
    ||| n == 0x1680
    ||| 0x2000 <= n <= 0x200a
    ||| n == 0x2028
    ||| n == 0x2029
    ||| n == 0x202f
    ||| n == 0x205f
    ||| n == 0x3000
}

/// `text` without its leading white space.
pub open spec fn start_trimmed(text: Seq<char>) -> Seq<char>
    decreases text.len(),
{
    if text.len() > 0 && is_white_space(text.first()) {
        start_trimmed(text.drop_first())
    } else {
        text
    }
}

/// `text` without its trailing white space.
pub open spec fn end_trimmed(text: Seq<char>) -> Seq<char>
    decreases text.len(),
{
    if text.len() > 0 && is_white_space(text.last()) {
        end_trimmed(text.drop_last())
    } else {
        text
    }
}

/// `text` without its leading and trailing white space.
pub open spec fn whitespace_trimmed(text: Seq<char>) -> Seq<char> {
    end_trimmed(start_trimmed(text))
}

/// Whether `part` is a stretch of consecutive characters of `whole`.
pub open spec fn is_part_of(part: Seq<char>, whole: Seq<char>) -> bool {
    exists|i: int, j: int| 0 <= i <= j <= whole.len() && part == #[trigger] whole.subrange(i, j)
}

/// Whether every captured text is a part of `haystack`.
pub open spec fn groups_within(found: Option<Seq<Option<Seq<char>>>>, haystack: Seq<char>) -> bool {
    found matches Some(groups) ==> forall|k: int|
        0 <= k < groups.len() ==> (#[trigger] groups[k] matches Some(text) ==> is_part_of(
            text,
            haystack,
        ))
}

/// Calls `regex::Regex::new` on `pattern` and then `Regex::captures_iter` on
/// `haystack`, keeping group 1 of every match. Trusted: the result is a
/// function of the two texts alone, which `first_groups` names, and every
/// captured text is a slice of the haystack. It is asked for the two address
/// patterns only, which are far below the size at which compiling gives up.
#[verifier::external_body]
fn capture_first_groups(pattern: &str, haystack: &str) -> (found: Option<Vec<Option<String>>>)
    requires
        pattern@ == BRACKETED_ADDRESS@ || pattern@ == BARE_ADDRESS@,
    ensures
        found.deep_view() == first_groups(pattern@, haystack@),
        groups_within(found.deep_view(), haystack@),
{
    match Regex::new(pattern) {
        Ok(re) => Some(
            re.captures_iter(haystack).map(|c| c.get(1).map(|m| m.as_str().to_string())).collect(),
        ),
        Err(_) => None,
    }
}

/// Whether the character occurs in the text.
fn contains_char(text: &str, wanted: char) -> (found: bool)
    ensures
        found == text@.contains(wanted),
{
    let mut rest = text.chars();
    let ghost mut passed: int = 0;
    loop
        invariant
            rest.obeys_prophetic_iter_laws(),
            0 <= passed <= text@.len(),
            rest.remaining() == text@.skip(passed),
            forall|j: int| 0 <= j < passed ==> text@[j] != wanted,
        decreases text@.len() - passed,
    {
        match rest.next() {
            Some(c) => {
                assert(c == text@[passed]);
                if c == wanted {
                    return true;
                }
                proof {
                    assert(text@.skip(passed).drop_first() =~= text@.skip(passed + 1));
                    passed = passed + 1;
                }
            },
            None => {
                return false;
            },
        }
    }
}

/// Leading white space is exactly what stands before the first other
/// character.
pub proof fn lemma_start_trimmed(text: Seq<char>, k: int)
    requires
        0 <= k <= text.len(),
        forall|j: int| 0 <= j < k ==> is_white_space(text[j]),
        k < text.len() ==> !is_white_space(text[k]),
    ensures
        start_trimmed(text) == text.skip(k),
    decreases k,
{
    if k == 0 {
        assert(text.skip(0) =~= text);
    } else {
        let rest = text.drop_first();
        assert forall|j: int| 0 <= j < k - 1 implies is_white_space(rest[j]) by {
            assert(rest[j] == text[j + 1]);
        }
        lemma_start_trimmed(rest, k - 1);
        assert(rest.skip(k - 1) =~= text.skip(k));
    }
}

/// Trailing white space is exactly what stands after the last other
/// character.
pub proof fn lemma_end_trimmed(text: Seq<char>, m: int)
    requires
        0 <= m <= text.len(),
        forall|j: int| m <= j < text.len() ==> is_white_space(text[j]),
        m > 0 ==> !is_white_space(text[m - 1]),
    ensures
        end_trimmed(text) == text.take(m),
    decreases text.len() - m,
{
    if m == text.len() {
        assert(text.take(m) =~= text);
    } else {
        let front = text.drop_last();
        lemma_end_trimmed(front, m);
        assert(front.take(m) =~= text.take(m));
    }
}

/// Whether `c` is white space.
fn is_space(c: char) -> (space: bool)
    ensures
        space == is_white_space(c),
{
    let n: u32 = c as u32;
    (0x09 <= n && n <= 0x0d) || n == 0x20 || n == 0x85 || n == 0xa0 || n == 0x1680 || (0x2000 <= n
        && n <= 0x200a) || n == 0x2028 || n == 0x2029 || n == 0x202f || n == 0x205f || n == 0x3000
}

/// The text without its leading and trailing white space.
fn trim_whitespace(text: &str) -> (trimmed: &str)
    ensures
        trimmed@ == whitespace_trimmed(text@),
        is_part_of(trimmed@, text@),
{
    let length = text.unicode_len();
    let mut rest = text.chars();
    let mut index: usize = 0;
    let mut start: usize = 0;
    let mut end: usize = 0;
    let mut found = false;
    loop
        invariant
            rest.obeys_prophetic_iter_laws(),
            length == text@.len(),
            index <= length,
            rest.remaining() == text@.skip(index as int),
            !found ==> start == 0 && end == 0 && forall|j: int|
                0 <= j < index ==> is_white_space(text@[j]),
            found ==> start < end <= index && !is_white_space(text@[start as int])
                && !is_white_space(text@[end - 1]) && (forall|j: int|
                0 <= j < start ==> is_white_space(text@[j])) && (forall|j: int|
                end <= j < index ==> is_white_space(text@[j])),
        ensures
            index == length,
        decreases length - index,
    {
        match rest.next() {
            Some(c) => {
                assert(c == text@[index as int]);
                if !is_space(c) {
                    if !found {
                        start = index;
                        found = true;
                    }
                    end = index + 1;
                }
                proof {
                    assert(text@.skip(index as int).drop_first() =~= text@.skip(index + 1));
                }
                index = index + 1;
            },
            None => {
                break ;
            },
        }
    }
    if !found {
        start = length;
        end = length;
    }
    proof {
        lemma_start_trimmed(text@, start as int);
        let tail = text@.skip(start as int);
        assert forall|j: int| end - start <= j < tail.len() implies is_white_space(tail[j]) by {
            assert(tail[j] == text@[j + start]);
        }
        lemma_end_trimmed(tail, end - start);
        assert(tail.take(end - start) =~= text@.subrange(start as int, end as int));
    }
    text.substring_char(start, end)
}

/// The group of the last match that has one; `raw` where there is none.
pub open spec fn last_group(groups: Seq<Option<Seq<char>>>, raw: Seq<char>) -> Seq<char>
    decreases groups.len(),
{
    if groups.len() == 0 {
        raw
    } else {
        match groups.last() {
            Some(address) => address,
            None => last_group(groups.drop_last(), raw),
        }
    }
}

/// The sender chosen from the outcome of a match attempt on `raw`.
pub open spec fn chosen_sender(raw: Seq<char>, found: Option<Seq<Option<Seq<char>>>>) -> Seq<
    char,
> {
    match found {
        Some(groups) => last_group(groups, raw),
        None => raw,
    }
}

/// The text that the address grammar is applied to, and with which pattern:
/// a value with an angle bracket is searched as it is, any other must be an
/// address from end to end once trimmed.
pub open spec fn match_outcome(raw: Seq<char>) -> Option<Seq<Option<Seq<char>>>> {
    if raw.contains('<') {
        first_groups(BRACKETED_ADDRESS@, raw)
    } else {
        first_groups(BARE_ADDRESS@, whitespace_trimmed(raw))
    }
}

/// The canonical sender identity of a raw header value.
pub open spec fn canonical_sender(raw: Seq<char>) -> Seq<char> {
    chosen_sender(raw, match_outcome(raw))
}

/// Whether `text` is one of the captured texts.
pub open spec fn is_captured(found: Option<Seq<Option<Seq<char>>>>, text: Seq<char>) -> bool {
    found matches Some(groups) && exists|k: int|
        0 <= k < groups.len() && #[trigger] groups[k] == Some(text)
}

/// A part of a part is a part.
pub proof fn lemma_part_of_part(inner: Seq<char>, middle: Seq<char>, whole: Seq<char>)
    requires
        is_part_of(inner, middle),
        is_part_of(middle, whole),
    ensures
        is_part_of(inner, whole),
{
    let (a, b) = choose|a: int, b: int|
        0 <= a <= b <= whole.len() && middle == #[trigger] whole.subrange(a, b);
    let (i, j) = choose|i: int, j: int|
        0 <= i <= j <= middle.len() && inner == #[trigger] middle.subrange(i, j);
    assert(inner =~= whole.subrange(a + i, a + j));
}

/// Chooses the sender from the outcome of a match attempt: the last captured
/// address, or the raw value unchanged where nothing was captured.
#[verifier::loop_isolation(false)]
pub fn pick_sender(raw: String, found: Option<Vec<Option<String>>>) -> (picked: String)
    ensures
        picked@ == chosen_sender(raw@, found.deep_view()),
        picked@ == raw@ || is_captured(found.deep_view(), picked@),
{
    match found {
        None => raw,
        Some(groups) => {
            let ghost all = groups.deep_view();
            let mut i: usize = groups.len();
            assert(all.take(i as int) =~= all);
            while i > 0
                invariant
                    i <= groups.len(),
                    all == groups.deep_view(),
                    all.len() == groups.len(),
                    last_group(all, raw@) == last_group(all.take(i as int), raw@),
                decreases i,
            {
                i = i - 1;
                proof {
                    let prefix = all.take(i + 1);
                    assert(prefix.last() == all[i as int]);
                    assert(prefix.drop_last() =~= all.take(i as int));
                    assert(all[i as int] == groups[i as int].deep_view());
                }
                match &groups[i] {
                    Some(address) => {
                        assert(all[i as int] == Some(address@));
                        return address.clone();
                    },
                    None => {},
                }
            }
            raw
        },
    }
}

/// Reduces a raw sender header value to its canonical identity: the address
/// it holds, or the value itself where it holds none. Either way the result
/// is the value or a part of it.
pub fn cleanup_sender(sender: String) -> (clean: String)
    ensures
        clean@ == canonical_sender(sender@),
        is_part_of(clean@, sender@),
{
    let ghost raw = sender@;
    let ghost searched;
    let found = if contains_char(sender.as_str(), '<') {
        proof {
            searched = raw;
            assert(raw == raw.subrange(0, raw.len() as int));
        }
        capture_first_groups(BRACKETED_ADDRESS, sender.as_str())
    } else {
        let trimmed = trim_whitespace(sender.as_str());
        proof {
            searched = trimmed@;
        }
        capture_first_groups(BARE_ADDRESS, trimmed)
    };
    let ghost outcome = found.deep_view();
    let clean = pick_sender(sender, found);
    proof {
        if clean@ == raw {
            assert(raw == raw.subrange(0, raw.len() as int));
        } else {
            let groups = outcome->Some_0;
            let k = choose|k: int| 0 <= k < groups.len() && #[trigger] groups[k] == Some(clean@);
            assert(is_part_of(clean@, searched));
            lemma_part_of_part(clean@, searched, raw);
        }
    }
    clean
}

/// Whether `header` carries exactly the name `name`.
pub open spec fn named(header: Header, name: Seq<char>) -> bool {
    header.name matches Some(n) && n@ == name
}

/// Whether `i` is the position of the first header called `name`.
pub open spec fn is_first_named(headers: Seq<Header>, name: Seq<char>, i: int) -> bool {
    &&& 0 <= i < headers.len()
    &&& named(headers[i], name)
    &&& forall|j: int| 0 <= j < i ==> !named(#[trigger] headers[j], name)
}

/// The position of the first header called `name`, if there is one.
pub open spec fn first_named(headers: Seq<Header>, name: Seq<char>) -> Option<int> {
    if exists|i: int| is_first_named(headers, name, i) {
        Some(choose|i: int| is_first_named(headers, name, i))
    } else {
        None
    }
}

/// The position of the header that names the sender: the first `From`, else
/// the first `FROM`, else the first `Return-Path`.
pub open spec fn sender_position(headers: Seq<Header>) -> Option<int> {
    if first_named(headers, "From"@) is Some {
        first_named(headers, "From"@)
    } else if first_named(headers, "FROM"@) is Some {
        first_named(headers, "FROM"@)
    } else {
        first_named(headers, "Return-Path"@)
    }
}

/// The raw sender of a message with these headers: the value of the header at
/// `sender_position`, the empty text where no header names the sender, and an
/// error where the chosen header has no value.
pub open spec fn raw_sender(headers: Seq<Header>) -> Result<Seq<char>, DataError> {
    match sender_position(headers) {
        None => Ok(Seq::empty()),
        Some(i) => match headers[i].value {
            Some(v) => Ok(v@),
            None => Err(DataError::MissingSenderValue),
        },
    }
}

/// A first position is the only one.
pub proof fn lemma_first_named_unique(headers: Seq<Header>, name: Seq<char>, i: int)
    requires
        is_first_named(headers, name, i),
    ensures
        first_named(headers, name) == Some(i),
{
    let c = choose|k: int| is_first_named(headers, name, k);
    assert(is_first_named(headers, name, c));
    if c < i {
        assert(!named(headers[c], name));
    }
    if i < c {
        assert(!named(headers[i], name));
    }
}

/// Finds the first header called `name`.
pub fn find_header(headers: &Vec<Header>, name: &str) -> (found: Option<usize>)
    ensures
        found matches Some(i) ==> first_named(headers@, name@) == Some(i as int),
        found is None ==> first_named(headers@, name@) is None,
{
    let wanted = name.to_owned();
    let mut i: usize = 0;
    while i < headers.len()
        invariant
            i <= headers.len(),
            wanted@ == name@,
            forall|j: int| 0 <= j < i ==> !named(#[trigger] headers@[j], name@),
        decreases headers.len() - i,
    {
        let hit = match &headers[i].name {
            Some(n) => *n == wanted,
            None => false,
        };
        if hit {
            proof {
                lemma_first_named_unique(headers@, name@, i as int);
            }
            return Some(i);
        }
        i = i + 1;
    }
    proof {
        assert forall|k: int| !is_first_named(headers@, name@, k) by {
            if 0 <= k < headers@.len() {
                assert(!named(headers@[k], name@));
            }
        }
    }
    None
}

/// The position of the header that names the sender of `message`, or `None`
/// where the message has no `From`, `FROM` or `Return-Path` header.
pub fn sender_header(message: &Message) -> (position: Option<usize>)
    ensures
        position matches Some(i) ==> sender_position(message.headers@) == Some(i as int),
        position is None ==> sender_position(message.headers@) is None,
{
    let from = find_header(&message.headers, "From");
    if from.is_some() {
        return from;
    }
    let upper = find_header(&message.headers, "FROM");
    if upper.is_some() {
        return upper;
    }
    find_header(&message.headers, "Return-Path")
}

/// The raw sender of `message`: the value of its first `From` header, else of
/// its first `FROM`, else of its first `Return-Path`; the empty string where
/// it has none of them.
pub fn get_sender(message: &Message) -> (sender: Result<String, DataError>)
    ensures
        match sender {
            Ok(s) => raw_sender(message.headers@) == Ok::<Seq<char>, DataError>(s@),
            Err(e) => raw_sender(message.headers@) == Err::<Seq<char>, DataError>(e),
        },
{
    match sender_header(message) {
        None => Ok(String::new()),
        Some(i) => {
            assert(0 <= i < message.headers@.len()) by {
                assert(is_first_named(message.headers@, "From"@, i as int) || is_first_named(
                    message.headers@,
                    "FROM"@,
                    i as int,
                ) || is_first_named(message.headers@, "Return-Path"@, i as int));
            }
            match &message.headers[i].value {
                Some(v) => Ok(v.clone()),
                None => Err(DataError::MissingSenderValue),
            }
        },
    }
}

/// The canonical sender of a message with these headers: empty where no
/// header names the sender, else the raw sender reduced to an address.
pub open spec fn sender_of(headers: Seq<Header>) -> Result<Seq<char>, DataError> {
    match sender_position(headers) {
        None => Ok(Seq::empty()),
        Some(_) => match raw_sender(headers) {
            Ok(raw) => Ok(canonical_sender(raw)),
            Err(e) => Err(e),
        },
    }
}

/// The canonical sender of `message`: the empty string where no header names
/// the sender, else the raw sender reduced to an address.
pub fn message_sender(message: &Message) -> (sender: Result<String, DataError>)
    ensures
        match sender {
            Ok(s) => sender_of(message.headers@) == Ok::<Seq<char>, DataError>(s@),
            Err(e) => sender_of(message.headers@) == Err::<Seq<char>, DataError>(e),
        },
{
    if sender_header(message).is_none() {
        return Ok(String::new());
    }
    match get_sender(message) {
        Ok(raw) => Ok(cleanup_sender(raw)),
        Err(e) => Err(e),
    }
}

} // verus!
