//! Core data types of the registry: validated email addresses, time-ordered
//! record identifiers, the stored record itself, and the typed requests that
//! callers hand to the service.

use vstd::prelude::*;
use vstd::string::StrSliceExecFns;

verus! {

/// Number of occurrences of `c` in `s`.
pub open spec fn count_char(s: Seq<char>, c: char) -> nat
    decreases s.len(),
{
    if s.len() == 0 {
        0
    } else {
        count_char(s.drop_last(), c) + (if s.last() == c {
            1nat
        } else {
            0nat
        })
    }
}

/// Some `@` stands before position `i`.
pub open spec fn has_at_before(s: Seq<char>, i: int) -> bool {
    exists|k: int| 0 <= k < i && s[k] == '@'
}

/// Some `.` stands strictly after some `@`, both before position `i`.
pub open spec fn dot_after_at_before(s: Seq<char>, i: int) -> bool {
    exists|a: int, d: int|
        #![trigger s[a], s[d]]
        0 <= a < d < i && s[a] == '@' && s[d] == '.'
}

/// Some `.` stands strictly after some `@`.
pub open spec fn has_dot_after_at(s: Seq<char>) -> bool {
    dot_after_at_before(s, s.len() as int)
}

/// A well-formed address: exactly one `@`, and the part after it splits into
/// two or more `.`-separated segments, i.e. holds at least one `.`.
/// This is a deliberately minimal syntactic gate, not a full address grammar:
/// by design nothing else is checked — no length limits, no character
/// classes, and in particular the part before the `@` may be empty.
pub open spec fn valid_email(s: Seq<char>) -> bool {
    count_char(s, '@') == 1 && has_dot_after_at(s)
}

/// Reading one more character adds its occurrence to the prefix count.
proof fn lemma_count_char_step(s: Seq<char>, c: char, i: int)
    requires
        0 <= i < s.len(),
    ensures
        count_char(s.take(i + 1), c) == count_char(s.take(i), c) + (if s[i] == c {
            1nat
        } else {
            0nat
        }),
{
    assert(s.take(i + 1).drop_last() =~= s.take(i));
    assert(s.take(i + 1).last() == s[i]);
}

/// The count is positive exactly when some position holds `c`.
proof fn lemma_count_char_pos(s: Seq<char>, c: char)
    ensures
        (count_char(s, c) > 0) <==> (exists|k: int| 0 <= k < s.len() && s[k] == c),
    decreases s.len(),
{
    if s.len() > 0 {
        lemma_count_char_pos(s.drop_last(), c);
        assert(forall|k: int| 0 <= k < s.len() - 1 ==> s[k] == #[trigger] s.drop_last()[k]);
        if s.last() == c {
            assert(s[s.len() - 1] == c);
        } else {
            if count_char(s, c) > 0 {
                let k = choose|k: int| 0 <= k < s.drop_last().len() && s.drop_last()[k] == c;
                assert(s[k] == c);
            }
            if exists|k: int| 0 <= k < s.len() && s[k] == c {
                let k = choose|k: int| 0 <= k < s.len() && s[k] == c;
                assert(k < s.len() - 1);
                assert(s.drop_last()[k] == c);
            }
        }
    }
}

/// Reading one more character extends the dot-after-at watch: position `i`
/// contributes exactly when it holds a `.` and an `@` stands before it.
proof fn lemma_dot_after_at_step(s: Seq<char>, i: int)
    requires
        0 <= i < s.len(),
    ensures
        dot_after_at_before(s, i + 1) == (dot_after_at_before(s, i) || (s[i] == '.'
            && has_at_before(s, i))),
{
    if dot_after_at_before(s, i + 1) {
        let (a, d) = choose|a: int, d: int|
            #![trigger s[a], s[d]]
            0 <= a < d < i + 1 && s[a] == '@' && s[d] == '.';
        if d == i {
            assert(s[i] == '.' && has_at_before(s, i));
        } else {
            assert(dot_after_at_before(s, i));
        }
    }
    if dot_after_at_before(s, i) {
        let (a, d) = choose|a: int, d: int|
            #![trigger s[a], s[d]]
            0 <= a < d < i && s[a] == '@' && s[d] == '.';
        assert(0 <= a < d < i + 1 && s[a] == '@' && s[d] == '.');
        assert(dot_after_at_before(s, i + 1));
    }
    if s[i] == '.' && has_at_before(s, i) {
        let a = choose|k: int| 0 <= k < i && s[k] == '@';
        assert(0 <= a < i + 1 && s[a] == '@' && s[i] == '.');
        assert(dot_after_at_before(s, i + 1));
    }
}

/// The prefix count of `@` is positive exactly when an `@` stands before `i`.
proof fn lemma_at_seen(s: Seq<char>, i: int)
    requires
        0 <= i <= s.len(),
    ensures
        (count_char(s.take(i), '@') > 0) <==> has_at_before(s, i),
{
    lemma_count_char_pos(s.take(i), '@');
    assert(forall|k: int| 0 <= k < i ==> #[trigger] s.take(i)[k] == s[k]);
    if count_char(s.take(i), '@') > 0 {
        let k = choose|k: int| 0 <= k < s.take(i).len() && s.take(i)[k] == '@';
        assert(s[k] == '@');
    }
    if has_at_before(s, i) {
        let k = choose|k: int| 0 <= k < i && s[k] == '@';
        assert(s.take(i)[k] == '@');
    }
}

/// The error reported when a candidate string fails the email gate.
#[derive(Debug)]
pub struct EmailValidationError;

/// A syntactically validated email address. Construction through [`Email::new`]
/// is the only validation gate: every value of this type satisfies
/// [`valid_email`] of its characters.
#[derive(PartialEq, Eq, Debug)]
pub struct Email {
    s: String,
}

impl Clone for Email {
    /// A clone is the same address.
    fn clone(&self) -> (r: Self)
        ensures
            r == *self,
    {
        Email { s: self.s.clone() }
    }
}

impl View for Email {
    type V = Seq<char>;

    closed spec fn view(&self) -> Seq<char> {
        self.s@
    }
}

impl Email {
    /// Validates `email` and wraps it; rejects exactly the strings that fail
    /// [`valid_email`].
    pub fn new(email: &str) -> (r: Result<Self, EmailValidationError>)
        ensures
            r is Ok <==> valid_email(email@),
            r is Ok ==> r->Ok_0@ == email@,
    {
        if !Self::validate_email(email) {
            return Err(EmailValidationError {});
        }
        Ok(Email { s: email.to_owned() })
    }

    /// Decides [`valid_email`] in one pass over the characters: counts the
    /// `@` signs and watches for a `.` after the first of them.
    pub fn validate_email(email: &str) -> (r: bool)
        ensures
            r == valid_email(email@),
    {
        let ghost s = email@;
        let n: usize = email.unicode_len();
        let mut i: usize = 0;
        let mut ats: usize = 0;
        let mut dot_after: bool = false;
        while i < n
            invariant
                0 <= i <= n,
                n == s.len(),
                s == email@,
                ats <= i,
                ats as nat == count_char(s.take(i as int), '@'),
                dot_after == dot_after_at_before(s, i as int),
            decreases n - i,
        {
            let c = email.get_char(i);
            proof {
                lemma_count_char_step(s, '@', i as int);
                lemma_dot_after_at_step(s, i as int);
                lemma_at_seen(s, i as int);
            }
            if c == '@' {
                ats = ats + 1;
            } else if c == '.' && ats > 0 {
                dot_after = true;
            }
            i = i + 1;
        }
        proof {
            assert(s.take(n as int) =~= s);
        }
        ats == 1 && dot_after
    }

    /// The address as a string slice.
    pub fn as_str(&self) -> (r: &str)
        ensures
            r@ == self@,
    {
        self.s.as_str()
    }

    /// Whether two addresses are the same string.
    pub fn same_as(&self, other: &Email) -> (r: bool)
        ensures
            r == (self@ == other@),
    {
        self.s == other.s
    }
}

/// The unique identifier of a stored record: the 128 bits of a version-7
/// UUID, a millisecond timestamp prefix followed by random bits. Time-ordered
/// and never reused after deletion.
#[derive(Clone, Copy, PartialEq, Eq, Hash, Debug, Structural)]
pub struct PulsarId(pub u128);

/// Relies on `uuid::Uuid::now_v7`, which combines the system clock with a
/// random source; nothing is promised of the value drawn. `as_u128` only
/// carries the identifier over as a plain 128-bit value. Note that
/// `now_v7` itself panics when the host clock reads before the Unix epoch
/// or the operating system's randomness source fails — host conditions
/// that no clause over the (empty) inputs could exclude.
#[verifier::external_body]
fn uuid_v7_bits() -> u128 {
    uuid::Uuid::now_v7().as_u128()
}

impl PulsarId {
    /// Draws a fresh time-ordered identifier.
    pub fn new() -> Self {
        PulsarId(uuid_v7_bits())
    }
}

/// A registered endpoint: its identifier (absent until the store assigns it),
/// its URL, and the ordered list of user emails it serves. `users` may hold
/// duplicates; the registry does not deduplicate.
#[derive(PartialEq, Eq, Debug)]
pub struct Pulsar {
    pub id: Option<PulsarId>,
    pub pulsar_url: String,
    pub users: Vec<Email>,
}

/// The mathematical value of a record: its identifier, its URL and the
/// sequence of its users. Two records with the same view are the same
/// record to every contract of this crate.
#[verifier::ext_equal]
pub struct PulsarView {
    pub id: Option<PulsarId>,
    pub pulsar_url: String,
    pub users: Seq<Email>,
}

impl View for Pulsar {
    type V = PulsarView;

    open spec fn view(&self) -> PulsarView {
        PulsarView { id: self.id, pulsar_url: self.pulsar_url, users: self.users@ }
    }
}

impl Clone for Pulsar {
    /// A clone is the same record, field for field.
    fn clone(&self) -> (r: Self)
        ensures
            r@ == self@,
    {
        let users = self.users.clone();
        proof {
            assert(users@ =~= self.users@);
        }
        Pulsar { id: self.id, pulsar_url: self.pulsar_url.clone(), users }
    }
}

impl Pulsar {
    /// A record with a freshly drawn identifier.
    pub fn new(pulsar_url: String, users: Vec<Email>) -> (p: Pulsar)
        ensures
            p.id is Some,
            p.pulsar_url == pulsar_url,
            p.users == users,
    {
        let id = PulsarId::new();
        Pulsar { id: Some(id), pulsar_url, users }
    }
}

/// Request to register a new endpoint.
pub struct CreatePulsar {
    pub users: Vec<Email>,
    pub pulsar_url: String,
}

/// Request to fetch a record by identifier.
pub struct GetPulsar {
    pub id: PulsarId,
}

/// Request to list the records serving an email address.
pub struct SearchPulsar {
    pub email: Email,
}

/// Request to remove a record by identifier.
pub struct DeletePulsar {
    pub id: PulsarId,
}

} // verus!
