//! One stored credential, the line it is listed as, and the name of the file
//! that mirrors it.

use vstd::prelude::*;
use vstd::string::StringExecFns;
use chrono::NaiveDateTime;
use chrono::Utc;
use crate::text::chars_of;
use crate::text::decimal;
use crate::text::decimal_text;
use crate::text::ends_with;
use crate::text::has_suffix;
use crate::text::is_substring;
use crate::text::lemma_decimal_text;
use crate::text::lemma_decimal_text_injective;
use crate::text::same_text;
use crate::text::trim;
use crate::text::trimmed;

verus! {

/// One credential. `password` holds the secret as the master key encrypted
/// it, never the secret itself; `last_updated` counts milliseconds since the
/// Unix epoch.
#[derive(Debug)]
pub struct Key {
    pub id: u32,
    pub url: String,
    pub user: String,
    pub password: String,
    pub notes: String,
    pub last_updated: i64,
}

/// A credential as plain values.
pub ghost struct KeyView {
    pub id: u32,
    pub url: Seq<char>,
    pub user: Seq<char>,
    pub password: Seq<char>,
    pub notes: Seq<char>,
    pub last_updated: i64,
}

impl View for Key {
    type V = KeyView;

    open spec fn view(&self) -> KeyView {
        KeyView {
            id: self.id,
            url: self.url@,
            user: self.user@,
            password: self.password@,
            notes: self.notes@,
            last_updated: self.last_updated,
        }
    }
}

impl Clone for Key {
    fn clone(&self) -> (copy: Self)
        ensures
            copy == *self,
    {
        Key {
            id: self.id,
            url: self.url.clone(),
            user: self.user.clone(),
            password: self.password.clone(),
            notes: self.notes.clone(),
            last_updated: self.last_updated,
        }
    }
}

/// The calendar day, as `%Y-%m-%d`, on which a count of milliseconds since
/// the Unix epoch falls in UTC; nothing where the count is beyond the dates
/// that `NaiveDateTime` can hold.
pub uninterp spec fn day_text(millis: i64) -> Option<Seq<char>>;

/// `NaiveDateTime::from_timestamp_millis`, then `format("%Y-%m-%d")` as text.
/// The date carries no time zone, so the result depends on the count alone.
#[verifier::external_body]
#[allow(deprecated)]
fn day_of(millis: i64) -> (day: Option<String>)
    ensures
        match day {
            Some(text) => day_text(millis) == Some(text@),
            None => day_text(millis) is None,
        },
{
    let at = NaiveDateTime::from_timestamp_millis(millis)?;
    Some(at.format("%Y-%m-%d").to_string())
}

/// `Utc::now().timestamp_millis()`: the clock. Nothing is claimed of it.
#[verifier::external_body]
pub(crate) fn now_millis() -> (millis: i64) {
    Utc::now().timestamp_millis()
}

/// The line that lists a credential whose day of last change reads `day`.
/// The secret is not part of it.
pub open spec fn line_text(key: KeyView, day: Seq<char>) -> Seq<char> {
    "id:"@ + decimal_text(key.id as nat) + " url:"@ + key.url + " login:"@ + key.user
        + " notes:"@ + key.notes + " last_updated:"@ + day
}

/// The lines of some credentials, each closed by a line feed; nothing if the
/// day of one of them cannot be told.
pub open spec fn lines_text(keys: Seq<KeyView>) -> Option<Seq<char>>
    decreases keys.len(),
{
    if keys.len() == 0 {
        Some(Seq::empty())
    } else {
        match (lines_text(keys.drop_last()), day_text(keys.last().last_updated)) {
            (Some(above), Some(day)) => Some(above + line_text(keys.last(), day) + "\n"@),
            _ => None,
        }
    }
}

/// The listing of some credentials: their lines, trimmed as a whole.
pub open spec fn listing_text(keys: Seq<KeyView>) -> Option<Seq<char>> {
    match lines_text(keys) {
        Some(lines) => Some(trimmed(lines)),
        None => None,
    }
}

/// A credential answers a query if its location, its login name or its notes
/// contain the query.
pub open spec fn answers(key: KeyView, query: Seq<char>) -> bool {
    is_substring(query, key.url) || is_substring(query, key.user) || is_substring(
        query,
        key.notes,
    )
}

/// The name of the file that mirrors the credential `id`.
pub open spec fn key_file_text(id: u32) -> Seq<char> {
    decimal_text(id as nat) + ".key"@
}

/// A file name is that of a credential if it ends in `.key` after at least
/// one character and is not the name of the master key's file.
pub open spec fn is_key_file_text(name: Seq<char>) -> bool {
    name.len() > 4 && has_suffix(name, ".key"@) && name != "main.key"@
}

impl Key {
    /// The line that lists this credential, given the day of its last change.
    pub fn line(&self, day: &str) -> (text: String)
        ensures
            text@ == line_text(self@, day@),
    {
        let mut text = String::new();
        text.append("id:");
        text.append(decimal(self.id).as_str());
        text.append(" url:");
        text.append(self.url.as_str());
        text.append(" login:");
        text.append(self.user.as_str());
        text.append(" notes:");
        text.append(self.notes.as_str());
        text.append(" last_updated:");
        text.append(day);
        proof {
            assert(text@ =~= line_text(self@, day@));
        }
        text
    }

    /// The line that lists this credential; none if the day of its last
    /// change cannot be told.
    pub fn to_string(&self) -> (text: Option<String>)
        ensures
            match text {
                Some(line) => day_text(self.last_updated) matches Some(day) && line@ == line_text(
                    self@,
                    day,
                ),
                None => day_text(self.last_updated) is None,
            },
    {
        match day_of(self.last_updated) {
            Some(day) => Some(self.line(day.as_str())),
            None => None,
        }
    }

    /// Tells whether this credential answers a query.
    pub fn matches(&self, query: &str) -> (yes: bool)
        ensures
            yes == answers(self@, query@),
    {
        crate::text::contains(self.url.as_str(), query) || crate::text::contains(
            self.user.as_str(),
            query,
        ) || crate::text::contains(self.notes.as_str(), query)
    }
}

/// The views of the credentials that a list refers to.
pub open spec fn views_of(keys: Seq<&Key>) -> Seq<KeyView> {
    keys.map_values(|key: &Key| key@)
}

/// Lists credentials, one line each, without white space at either end of
/// the whole; none if the day of one of them cannot be told.
pub fn display_keys(keys: &Vec<&Key>) -> (text: Option<String>)
    ensures
        match text {
            Some(listing) => listing_text(views_of(keys@)) == Some(listing@),
            None => listing_text(views_of(keys@)) is None,
        },
{
    let mut result = String::new();
    let mut i: usize = 0;
    while i < keys.len()
        invariant
            i <= keys@.len(),
            lines_text(views_of(keys@).take(i as int)) == Some(result@),
        decreases keys@.len() - i,
    {
        let ghost upto = views_of(keys@).take(i + 1);
        proof {
            assert(upto.drop_last() =~= views_of(keys@).take(i as int));
            assert(upto.last() == keys@[i as int]@);
        }
        match keys[i].to_string() {
            Some(line) => {
                result.append(line.as_str());
                result.append("\n");
            },
            None => {
                proof {
                    lemma_lines_text_fails(views_of(keys@), i + 1);
                }
                return None;
            },
        }
        i += 1;
    }
    proof {
        assert(views_of(keys@).take(i as int) =~= views_of(keys@));
    }
    Some(trim(result.as_str()))
}

/// Where the lines of a beginning cannot be told, those of the whole cannot.
proof fn lemma_lines_text_fails(keys: Seq<KeyView>, k: int)
    requires
        0 <= k <= keys.len(),
        lines_text(keys.take(k)) is None,
    ensures
        lines_text(keys) is None,
    decreases keys.len() - k,
{
    if k == keys.len() {
        assert(keys.take(k) =~= keys);
    } else {
        assert(keys.drop_last().take(k) =~= keys.take(k));
        lemma_lines_text_fails(keys.drop_last(), k);
    }
}

/// The name of the master key's file.
pub fn main_key_file() -> (name: &'static str)
    ensures
        name@ == "main.key"@,
{
    "main.key"
}

/// The name of the file that mirrors the credential `id`.
pub fn key_file_name(id: u32) -> (name: String)
    ensures
        name@ == key_file_text(id),
{
    let mut name = decimal(id);
    name.append(".key");
    name
}

/// Tells whether a file name is that of a credential.
pub fn is_key_file(name: &str) -> (yes: bool)
    ensures
        yes == is_key_file_text(name@),
{
    let chars = chars_of(name);
    chars.len() > 4 && ends_with(&chars, &chars_of(".key")) && !same_text(
        &chars,
        &chars_of("main.key"),
    )
}

/// The file of every credential is recognised as one, and never is the
/// master key's file.
pub proof fn lemma_key_file_is_key_file(id: u32)
    ensures
        is_key_file_text(key_file_text(id)),
        key_file_text(id) != "main.key"@,
{
    reveal_strlit(".key");
    reveal_strlit("main.key");
    lemma_decimal_text(id as nat);
    let digits = decimal_text(id as nat);
    let name = key_file_text(id);
    assert(name.len() == digits.len() + 4);
    assert(name.subrange(name.len() - 4, name.len() as int) =~= ".key"@);
    assert(name[0] == digits[0]);
    assert(crate::text::is_digit(digits[0]));
    assert("main.key"@[0] == 'm');
}

/// Two credentials with the same file have the same identifier.
pub proof fn lemma_key_file_injective(a: u32, b: u32)
    requires
        key_file_text(a) == key_file_text(b),
    ensures
        a == b,
{
    reveal_strlit(".key");
    let da = decimal_text(a as nat);
    let db = decimal_text(b as nat);
    assert(key_file_text(a).len() == da.len() + 4);
    assert(key_file_text(b).len() == db.len() + 4);
    assert(key_file_text(a).subrange(0, da.len() as int) =~= da);
    assert(key_file_text(b).subrange(0, db.len() as int) =~= db);
    lemma_decimal_text_injective(a as nat, b as nat);
}

} // verus!
