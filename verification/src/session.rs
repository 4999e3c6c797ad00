//! Guest sessions: the profiles that session tokens stand for, and the
//! session cookie that carries a token.
use vstd::prelude::*;
use vstd::string::StringExecFns;
use uuid::Uuid;
use crate::models::opt_string_view;
use crate::text::{
    chars_of, digit_char, digit_str, eq_ignore_ascii_case, equals_ignore_ascii_case, find_char, index_of, is_ws,
    lemma_index_of_agree, lemma_index_of_bounds, lemma_ws_back_agree, lemma_ws_back_bounds,
    lemma_ws_fwd_agree, lemma_ws_fwd_bounds, range_equals,
    skip_ws_backward, skip_ws_forward, substring, trim_range, ws_back, ws_fwd,
};

verus! {

broadcast use vstd::string::group_string_axioms;

#[verifier::external_type_specification]
#[verifier::external_body]
pub struct ExUuid(Uuid);

/// Calls `uuid::Uuid::new_v4`, which draws a random version-4 UUID. The value
/// rests on chance, so nothing is stated of it.
#[verifier::external_body]
fn random_uuid() -> (id: Uuid) {
    Uuid::new_v4()
}

/// Whether `c` is a digit of lower-case hexadecimal.
pub open spec fn is_lower_hex(c: char) -> bool {
    ('0' <= c <= '9') || ('a' <= c <= 'f')
}

/// Calls `Uuid::simple` and renders it with `ToString`; uuid's `Simple`
/// formatter writes the 16 bytes as 32 lower-case hexadecimal digits. Which
/// digits, as a function of the bytes, is not stated here.
#[verifier::external_body]
fn simple_hex(id: Uuid) -> (s: String)
    ensures
        s@.len() == 32,
        forall|i: int| 0 <= i < 32 ==> is_lower_hex(#[trigger] s@[i]),
{
    id.simple().to_string()
}

/// The name of the cookie that holds the session token.
pub const SESSION_COOKIE_NAME: &'static str = "poker_session";

/// The avatar that every new guest gets.
pub const DEFAULT_AVATAR: &'static str = "puppy";

pub const SESSION_REQUIRED: &'static str = "Guest session required";

pub const SESSION_EXPIRED: &'static str = "Guest session expired";

/// HTTP status 401, with which a request without a valid session is refused.
pub const UNAUTHORIZED: u16 = 401;

/// A guest known to this process.
#[derive(Debug)]
pub struct GuestProfile {
    pub user_id: Uuid,
    pub avatar: String,
}

/// The mathematical model of a [`GuestProfile`].
pub struct GuestProfileView {
    pub user_id: Uuid,
    pub avatar: Seq<char>,
}

impl View for GuestProfile {
    type V = GuestProfileView;

    open spec fn view(&self) -> GuestProfileView {
        GuestProfileView { user_id: self.user_id, avatar: self.avatar@ }
    }
}

impl Clone for GuestProfile {
    fn clone(&self) -> (r: Self)
        ensures
            r@ == self@,
    {
        GuestProfile { user_id: self.user_id, avatar: self.avatar.clone() }
    }
}

struct SessionEntry {
    token: String,
    profile: GuestProfile,
}

/// The profile that the first entry at or after `i` with token `token` holds.
pub open spec fn lookup_from(
    entries: Seq<(Seq<char>, GuestProfileView)>,
    token: Seq<char>,
    i: int,
) -> Option<GuestProfileView>
    decreases entries.len() - i,
{
    if 0 <= i < entries.len() {
        if entries[i].0 == token {
            Some(entries[i].1)
        } else {
            lookup_from(entries, token, i + 1)
        }
    } else {
        None
    }
}

/// The guest profiles of this process, by session token.
pub struct GuestProfiles {
    entries: Vec<SessionEntry>,
}

impl GuestProfiles {
    spec fn entries_view(&self) -> Seq<(Seq<char>, GuestProfileView)> {
        self.entries@.map_values(|e: SessionEntry| (e.token@, e.profile@))
    }
}

impl View for GuestProfiles {
    type V = Map<Seq<char>, GuestProfileView>;

    closed spec fn view(&self) -> Map<Seq<char>, GuestProfileView> {
        Map::new(
            |t: Seq<char>| lookup_from(self.entries_view(), t, 0) is Some,
            |t: Seq<char>| lookup_from(self.entries_view(), t, 0)->Some_0,
        )
    }
}

proof fn lemma_lookup_agree(
    s: Seq<(Seq<char>, GuestProfileView)>,
    u: Seq<(Seq<char>, GuestProfileView)>,
    t: Seq<char>,
    k: int,
)
    requires
        0 <= k,
        s.len() == u.len(),
        forall|j: int| k <= j < s.len() ==> #[trigger] s[j] == u[j],
    ensures
        lookup_from(u, t, k) == lookup_from(s, t, k),
    decreases s.len() - k,
{
    if k < s.len() {
        assert(s[k] == u[k]);
        lemma_lookup_agree(s, u, t, k + 1);
    }
}

proof fn lemma_lookup_update(
    s: Seq<(Seq<char>, GuestProfileView)>,
    i: int,
    e: (Seq<char>, GuestProfileView),
    t: Seq<char>,
    k: int,
)
    requires
        0 <= i < s.len(),
        0 <= k <= i,
        s[i].0 == e.0,
        forall|j: int| k <= j < i ==> (#[trigger] s[j]).0 != e.0,
    ensures
        lookup_from(s.update(i, e), t, k) == if t == e.0 {
            Some(e.1)
        } else {
            lookup_from(s, t, k)
        },
    decreases i - k,
{
    let u = s.update(i, e);
    if k < i {
        assert(u[k] == s[k]);
        lemma_lookup_update(s, i, e, t, k + 1);
    } else {
        assert(u[i] == e);
        lemma_lookup_agree(s, u, t, i + 1);
    }
}

proof fn lemma_lookup_push(
    s: Seq<(Seq<char>, GuestProfileView)>,
    e: (Seq<char>, GuestProfileView),
    t: Seq<char>,
    k: int,
)
    requires
        0 <= k <= s.len(),
        lookup_from(s, e.0, k) is None,
    ensures
        lookup_from(s.push(e), t, k) == if t == e.0 && lookup_from(s, t, k) is None {
            Some(e.1)
        } else {
            lookup_from(s, t, k)
        },
    decreases s.len() - k,
{
    let u = s.push(e);
    if k < s.len() {
        assert(u[k] == s[k]);
        lemma_lookup_push(s, e, t, k + 1);
    } else {
        assert(u[k] == e);
        assert(lookup_from(u, t, k + 1) is None);
    }
}

impl GuestProfiles {
    /// No profiles.
    pub fn new() -> (r: Self)
        ensures
            r@ == Map::<Seq<char>, GuestProfileView>::empty(),
    {
        let r = GuestProfiles { entries: Vec::new() };
        assert(r@ =~= Map::<Seq<char>, GuestProfileView>::empty());
        r
    }

    /// Forgets every profile.
    pub fn clear(&mut self)
        ensures
            final(self)@ == Map::<Seq<char>, GuestProfileView>::empty(),
    {
        self.entries = Vec::new();
        assert(self@ =~= Map::<Seq<char>, GuestProfileView>::empty());
    }

    /// The position of the first entry with token `token`, or the length.
    fn position(&self, token: &String) -> (i: usize)
        ensures
            i <= self.entries@.len(),
            forall|j: int| 0 <= j < i ==> (#[trigger] self.entries_view()[j]).0 != token@,
            i < self.entries@.len() ==> self.entries_view()[i as int].0 == token@,
            lookup_from(self.entries_view(), token@, 0) == lookup_from(
                self.entries_view(),
                token@,
                i as int,
            ),
    {
        let mut i: usize = 0;
        while i < self.entries.len() && !(self.entries[i].token == *token)
            invariant
                i <= self.entries@.len(),
                forall|j: int| 0 <= j < i ==> (#[trigger] self.entries_view()[j]).0 != token@,
                lookup_from(self.entries_view(), token@, 0) == lookup_from(
                    self.entries_view(),
                    token@,
                    i as int,
                ),
            decreases self.entries@.len() - i,
        {
            i = i + 1;
        }
        i
    }

    /// A copy of the profile of session `token`.
    pub fn get(&self, token: &str) -> (r: Option<GuestProfile>)
        ensures
            r is Some <==> self@.contains_key(token@),
            r matches Some(p) ==> p@ == self@[token@],
    {
        let key = token.to_string();
        let i = self.position(&key);
        if i < self.entries.len() {
            Some(self.entries[i].profile.clone())
        } else {
            None
        }
    }

    /// Records `profile` under `token`, in place of any profile it had.
    pub fn insert(&mut self, token: String, profile: GuestProfile)
        ensures
            final(self)@ == old(self)@.insert(token@, profile@),
    {
        let i = self.position(&token);
        let ghost s = self.entries_view();
        let ghost e = (token@, profile@);
        if i < self.entries.len() {
            self.entries.set(i, SessionEntry { token, profile });
            proof {
                assert(self.entries_view() =~= s.update(i as int, e));
                assert forall|t: Seq<char>| #[trigger]
                    lookup_from(self.entries_view(), t, 0) == if t == e.0 {
                        Some(e.1)
                    } else {
                        lookup_from(s, t, 0)
                    } by {
                    lemma_lookup_update(s, i as int, e, t, 0);
                }
            }
        } else {
            self.entries.push(SessionEntry { token, profile });
            proof {
                assert(self.entries_view() =~= s.push(e));
                assert forall|t: Seq<char>| #[trigger]
                    lookup_from(self.entries_view(), t, 0) == if t == e.0 && lookup_from(
                        s,
                        t,
                        0,
                    ) is None {
                        Some(e.1)
                    } else {
                        lookup_from(s, t, 0)
                    } by {
                    lemma_lookup_push(s, e, t, 0);
                }
            }
        }
        assert(self@ =~= old(self)@.insert(token@, profile@));
    }

    /// The session tokens recorded, in order.
    spec fn tokens(&self) -> Seq<Seq<char>> {
        self.entries@.map_values(|e: SessionEntry| e.token@)
    }

    /// Whether `token` names a recorded session, as the view says.
    fn holds(&self, token: &String) -> (r: bool)
        ensures
            r == self@.contains_key(token@),
            r ==> self.tokens().contains(token@),
    {
        let i = self.position(token);
        if i < self.entries.len() {
            assert(self.tokens()[i as int] == token@);
            true
        } else {
            false
        }
    }

    /// `drawn` where no session holds it; else the first of
    /// [`fallback_token`]`(drawn, 0)`, `(drawn, 1)`, ... that no session holds,
    /// which exists because there are fewer sessions than such tokens.
    fn fresh_token(&self, drawn: String) -> (r: String)
        requires
            is_issued_token_shape(drawn@),
        ensures
            is_issued_token_shape(r@),
            !self@.contains_key(r@),
            !self@.contains_key(drawn@) ==> r@ == drawn@,
    {
        if !self.holds(&drawn) {
            return drawn;
        }
        let prefix = substring(drawn.as_str(), 0, 16);
        let n = self.entries.len();
        let mut k: usize = 0;
        let ghost mut taken: Seq<Seq<char>> = Seq::empty();
        proof {
            lemma_pow16_16();
        }
        loop
            invariant
                k <= n,
                n == self.entries@.len(),
                self.tokens().len() == n,
                prefix@ == drawn@.subrange(0, 16),
                is_issued_token_shape(drawn@),
                self@.contains_key(drawn@),
                pow16(16) == 0x1_0000_0000_0000_0000,
                taken.len() == k,
                forall|j: int| 0 <= j < k ==> #[trigger] taken[j] == fallback_token(drawn@, j as nat),
                forall|j: int| 0 <= j < k ==> self.tokens().contains(#[trigger] taken[j]),
            decreases n - k,
        {
            let mut cand = prefix.clone();
            let digits = hex_string(k as u64, 16);
            cand.append(digits.as_str());
            proof {
                lemma_hex_digits_shape(k as nat, 16);
                assert(cand@ == fallback_token(drawn@, k as nat));
            }
            if !self.holds(&cand) {
                proof {
                    let t = cand@;
                    assert forall|i: int| 0 <= i < 32 implies is_lower_hex(#[trigger] t[i]) by {
                        if i < 16 {
                            assert(t[i] == drawn@[i]);
                        } else {
                            assert(t[i] == hex_digits(k as nat, 16)[i - 16]);
                        }
                    }
                }
                return cand;
            }
            proof {
                let next = taken.push(cand@);
                assert forall|i: int, j: int| 0 <= i < j < next.len() implies next[i] != next[j] by {
                    if next[i] == next[j] {
                        let a = fallback_token(drawn@, i as nat);
                        let b = fallback_token(drawn@, j as nat);
                        assert(next[i] == a);
                        assert(next[j] == b);
                        lemma_hex_digits_shape(i as nat, 16);
                        lemma_hex_digits_shape(j as nat, 16);
                        assert(a.subrange(16, 32) =~= hex_digits(i as nat, 16));
                        assert(b.subrange(16, 32) =~= hex_digits(j as nat, 16));
                        lemma_hex_digits_injective(i as nat, j as nat, 16);
                    }
                }
                assert forall|i: int| 0 <= i < next.len() implies self.tokens().contains(
                    #[trigger] next[i],
                ) by {
                    if i < k {
                        assert(next[i] == taken[i]);
                    }
                }
                lemma_distinct_members_bound(next, self.tokens());
                taken = next;
            }
            k = k + 1;
        }
    }

    /// Records a new guest with the avatar [`DEFAULT_AVATAR`] under `token`.
    pub fn register(&mut self, token: String, user_id: Uuid) -> (r: GuestProfile)
        ensures
            r.user_id == user_id,
            r.avatar@ == DEFAULT_AVATAR@,
            final(self)@ == old(self)@.insert(token@, r@),
    {
        let profile = GuestProfile { user_id, avatar: DEFAULT_AVATAR.to_string() };
        let copy = profile.clone();
        self.insert(token, profile);
        copy
    }
}

// ---------------------------------------------------------------------------
// Fresh tokens
/// The lower-case hexadecimal digit of `d`, for `0 <= d < 16`.
pub open spec fn hex_char(d: int) -> char {
    if d < 10 {
        digit_char(d)
    } else if d == 10 {
        'a'
    } else if d == 11 {
        'b'
    } else if d == 12 {
        'c'
    } else if d == 13 {
        'd'
    } else if d == 14 {
        'e'
    } else {
        'f'
    }
}

/// The last `w` hexadecimal digits of `k`, with leading zeros.
pub open spec fn hex_digits(k: nat, w: nat) -> Seq<char>
    decreases w,
{
    if w == 0 {
        Seq::empty()
    } else {
        hex_digits(k / 16, (w - 1) as nat).push(hex_char((k % 16) as int))
    }
}

pub open spec fn pow16(w: nat) -> nat
    decreases w,
{
    if w == 0 {
        1
    } else {
        16 * pow16((w - 1) as nat)
    }
}

proof fn lemma_hex_digits_shape(k: nat, w: nat)
    ensures
        hex_digits(k, w).len() == w,
        forall|i: int| 0 <= i < w ==> is_lower_hex(#[trigger] hex_digits(k, w)[i]),
    decreases w,
{
    if w > 0 {
        lemma_hex_digits_shape(k / 16, (w - 1) as nat);
        let d = hex_digits(k, w);
        assert forall|i: int| 0 <= i < w implies is_lower_hex(#[trigger] d[i]) by {
            if i < w - 1 {
                assert(d[i] == hex_digits(k / 16, (w - 1) as nat)[i]);
            }
        }
    }
}

proof fn lemma_hex_char_injective(x: int, y: int)
    requires
        0 <= x < 16,
        0 <= y < 16,
        hex_char(x) == hex_char(y),
    ensures
        x == y,
{
}

proof fn lemma_hex_digits_injective(a: nat, b: nat, w: nat)
    requires
        a < pow16(w),
        b < pow16(w),
        hex_digits(a, w) == hex_digits(b, w),
    ensures
        a == b,
    decreases w,
{
    if w > 0 {
        let da = hex_digits(a, w);
        let db = hex_digits(b, w);
        assert(da.last() == db.last());
        lemma_hex_char_injective((a % 16) as int, (b % 16) as int);
        assert(da.drop_last() =~= hex_digits(a / 16, (w - 1) as nat));
        assert(db.drop_last() =~= hex_digits(b / 16, (w - 1) as nat));
        lemma_hex_digits_injective(a / 16, b / 16, (w - 1) as nat);
    }
}

proof fn lemma_pow16_16()
    ensures
        pow16(16) == 0x1_0000_0000_0000_0000,
{
    reveal_with_fuel(pow16, 17);
}

fn hex_str(d: u64) -> (r: &'static str)
    requires
        d < 16,
    ensures
        r@ == seq![hex_char(d as int)],
{
    proof {
        reveal_strlit("a");
        reveal_strlit("b");
        reveal_strlit("c");
        reveal_strlit("d");
        reveal_strlit("e");
        reveal_strlit("f");
    }
    if d < 10 {
        digit_str(d)
    } else if d == 10 {
        "a"
    } else if d == 11 {
        "b"
    } else if d == 12 {
        "c"
    } else if d == 13 {
        "d"
    } else if d == 14 {
        "e"
    } else {
        "f"
    }
}

fn hex_string(k: u64, w: usize) -> (s: String)
    ensures
        s@ == hex_digits(k as nat, w as nat),
    decreases w,
{
    if w == 0 {
        String::new()
    } else {
        let mut s = hex_string(k / 16, w - 1);
        s.append(hex_str(k % 16));
        s
    }
}

/// A sequence of `d.len()` distinct values, each of which occurs in `s`, is
/// no longer than `s`.
proof fn lemma_distinct_members_bound<A>(d: Seq<A>, s: Seq<A>)
    requires
        forall|i: int, j: int| 0 <= i < j < d.len() ==> d[i] != d[j],
        forall|i: int| 0 <= i < d.len() ==> s.contains(#[trigger] d[i]),
    ensures
        d.len() <= s.len(),
    decreases d.len(),
{
    if d.len() > 0 {
        let x = d.last();
        assert(s.contains(d[d.len() - 1]));
        let idx = choose|m: int| 0 <= m < s.len() && s[m] == x;
        let s2 = s.remove(idx);
        let d2 = d.drop_last();
        assert forall|i: int| 0 <= i < d2.len() implies s2.contains(#[trigger] d2[i]) by {
            let y = d2[i];
            assert(y == d[i]);
            assert(s.contains(d[i]));
            let jj = choose|m: int| 0 <= m < s.len() && s[m] == y;
            assert(y != x);
            assert(jj != idx);
            if jj < idx {
                assert(s2[jj] == y);
            } else {
                assert(s2[jj - 1] == y);
            }
        }
        lemma_distinct_members_bound(d2, s2);
    }
}

/// The token tried at step `k` when a drawn token is taken: the first 16
/// digits of the drawn one, then `k` in 16 hexadecimal digits.
pub open spec fn fallback_token(drawn: Seq<char>, k: nat) -> Seq<char> {
    drawn.subrange(0, 16) + hex_digits(k, 16)
}

/// Whether `token` has the shape of a token that this server issues:
/// 32 lower-case hexadecimal digits.
pub open spec fn is_issued_token_shape(token: Seq<char>) -> bool {
    &&& token.len() == 32
    &&& forall|i: int| 0 <= i < 32 ==> is_lower_hex(#[trigger] token[i])
}

/// The profile of session `existing_token` where it names one; else a new
/// guest, with a random token and a random user id, which is recorded.
pub fn get_or_create_guest_profile(profiles: &mut GuestProfiles, existing_token: Option<String>) -> (r: (
    String,
    GuestProfile,
))
    ensures
        (existing_token matches Some(t) && old(profiles)@.contains_key(t@)) ==> {
            &&& r.0@ == existing_token->Some_0@
            &&& r.1@ == old(profiles)@[r.0@]
            &&& final(profiles)@ == old(profiles)@
        },
        !(existing_token matches Some(t) && old(profiles)@.contains_key(t@)) ==> {
            &&& is_issued_token_shape(r.0@)
            &&& !old(profiles)@.contains_key(r.0@)
            &&& r.1.avatar@ == DEFAULT_AVATAR@
            &&& final(profiles)@ == old(profiles)@.insert(r.0@, r.1@)
        },
{
    if let Some(token) = existing_token {
        if let Some(profile) = profiles.get(token.as_str()) {
            return (token, profile);
        }
    }
    let token = profiles.fresh_token(simple_hex(random_uuid()));
    let user_id = random_uuid();
    let copy = token.clone();
    let profile = profiles.register(token, user_id);
    (copy, profile)
}

// ---------------------------------------------------------------------------
// Cookies
/// The value of cookie `name` in the `Cookie` header text `s`, from the part
/// that starts at `i`: the header is split at `;`, each part is trimmed and
/// split at its first `=`, and the first part whose name is `name` gives its
/// value.
pub open spec fn cookie_from(s: Seq<char>, name: Seq<char>, i: int) -> Option<Seq<char>>
    decreases s.len() - i,
{
    let e = index_of(s, ';', i, s.len() as int);
    let (a, b) = trim_range(s, i, e);
    let p = index_of(s, '=', a, b);
    if p < b && s.subrange(a, p) == name {
        Some(s.subrange(p + 1, b))
    } else if e < s.len() {
        proof {
            if i <= s.len() {
                lemma_index_of_bounds(s, ';', i, s.len() as int);
            }
        }
        cookie_from(s, name, e + 1)
    } else {
        None
    }
}

/// The value of cookie `name` in a `Cookie` header, where there is one.
pub open spec fn cookie_value(header: Option<Seq<char>>, name: Seq<char>) -> Option<Seq<char>> {
    match header {
        Some(h) => cookie_from(h, name, 0),
        None => None,
    }
}

pub open spec fn opt_str_view(s: Option<&str>) -> Option<Seq<char>> {
    match s {
        Some(t) => Some(t@),
        None => None,
    }
}

/// The value of cookie `name` in the `Cookie` header text `header`.
pub fn get_cookie(header: Option<&str>, name: &str) -> (r: Option<String>)
    ensures
        opt_string_view(r) == cookie_value(opt_str_view(header), name@),
{
    let h = match header {
        Some(h) => h,
        None => {
            return None;
        },
    };
    let v = chars_of(h);
    let w = chars_of(name);
    let n = v.len();
    let mut i: usize = 0;
    assert(opt_str_view(header) == Some(h@));
    assert(cookie_value(opt_str_view(header), name@) == cookie_from(v@, w@, 0));
    loop
        invariant
            v@ == h@,
            w@ == name@,
            n == v@.len(),
            cookie_value(opt_str_view(header), name@) == cookie_from(v@, w@, 0),
            i <= n,
            cookie_from(v@, w@, 0) == cookie_from(v@, w@, i as int),
        decreases n - i,
    {
        let e = find_char(&v, ';', i, n);
        proof {
            lemma_index_of_bounds(v@, ';', i as int, n as int);
        }
        let a = skip_ws_forward(&v, i, e);
        proof {
            lemma_ws_fwd_bounds(v@, i as int, e as int);
        }
        let b = skip_ws_backward(&v, a, e);
        proof {
            lemma_ws_back_bounds(v@, a as int, e as int);
        }
        let p = find_char(&v, '=', a, b);
        proof {
            lemma_index_of_bounds(v@, '=', a as int, b as int);
        }
        proof {
            assert(trim_range(v@, i as int, e as int) == (a as int, b as int));
        }
        if p < b && range_equals(&v, a, p, &w) {
            assert(cookie_from(v@, w@, i as int) == Some(v@.subrange(p + 1, b as int)));
            return Some(substring(h, p + 1, b));
        }
        assert(!(p < b && v@.subrange(a as int, p as int) == w@));
        if e < n {
            assert(cookie_from(v@, w@, i as int) == cookie_from(v@, w@, e + 1));
            i = e + 1;
        } else {
            assert(cookie_from(v@, w@, i as int) is None);
            return None;
        }
    }
}

/// The text of the `Set-Cookie` header that hands `token` to the client.
pub open spec fn session_cookie_text(token: Seq<char>, secure: bool) -> Seq<char> {
    SESSION_COOKIE_NAME@ + "="@ + token + "; Path=/; HttpOnly; SameSite=Lax"@ + if secure {
        "; Secure"@
    } else {
        Seq::empty()
    }
}

/// The `Set-Cookie` header text for `token`; `secure` adds the `Secure`
/// attribute.
pub fn session_cookie(token: &str, secure: bool) -> (r: String)
    ensures
        r@ == session_cookie_text(token@, secure),
{
    let mut c = SESSION_COOKIE_NAME.to_string();
    c.append("=");
    c.append(token);
    c.append("; Path=/; HttpOnly; SameSite=Lax");
    if secure {
        c.append("; Secure");
    } else {
        assert(c@ + Seq::<char>::empty() =~= c@);
    }
    c
}

/// Whether the `COOKIE_SECURE` setting turns on secure cookies: only the
/// word `true`, in any ASCII case, does.
pub fn cookie_secure(setting: Option<&str>) -> (r: bool)
    ensures
        r == (setting matches Some(v) && eq_ignore_ascii_case(v@, "true"@)),
{
    match setting {
        Some(v) => equals_ignore_ascii_case(v, "true"),
        None => false,
    }
}

/// Restores the session that the `Cookie` header names, or starts a new one.
/// Returns the `Set-Cookie` header text and the guest's profile.
pub fn create_or_restore_session(
    profiles: &mut GuestProfiles,
    cookie_header: Option<&str>,
    secure: bool,
) -> (r: (String, GuestProfile))
    ensures
        ({
            let existing = cookie_value(opt_str_view(cookie_header), SESSION_COOKIE_NAME@);
            &&& (existing matches Some(t) && old(profiles)@.contains_key(t)) ==> {
                &&& r.0@ == session_cookie_text(existing->Some_0, secure)
                &&& r.1@ == old(profiles)@[existing->Some_0]
                &&& final(profiles)@ == old(profiles)@
            }
            &&& !(existing matches Some(t) && old(profiles)@.contains_key(t)) ==> exists|
                token: Seq<char>,
            |
                {
                    &&& is_issued_token_shape(token)
                    &&& !old(profiles)@.contains_key(token)
                    &&& r.0@ == session_cookie_text(token, secure)
                    &&& r.1.avatar@ == DEFAULT_AVATAR@
                    &&& #[trigger] final(profiles)@ == old(profiles)@.insert(token, r.1@)
                }
        }),
{
    let existing = get_cookie(cookie_header, SESSION_COOKIE_NAME);
    let (token, profile) = get_or_create_guest_profile(profiles, existing);
    let cookie = session_cookie(token.as_str(), secure);
    (cookie, profile)
}

/// The profile of the session that the `Cookie` header names. Refused with
/// status 401 where the header names no session, or one that this process
/// does not know.
pub fn session_profile_from_cookie(profiles: &GuestProfiles, cookie_header: Option<&str>) -> (r:
    Result<GuestProfile, (u16, &'static str)>)
    ensures
        ({
            let existing = cookie_value(opt_str_view(cookie_header), SESSION_COOKIE_NAME@);
            match existing {
                None => r == Err::<GuestProfile, (u16, &'static str)>(
                    (UNAUTHORIZED, SESSION_REQUIRED),
                ),
                Some(t) => if profiles@.contains_key(t) {
                    r matches Ok(p) && p@ == profiles@[t]
                } else {
                    r == Err::<GuestProfile, (u16, &'static str)>((UNAUTHORIZED, SESSION_EXPIRED))
                },
            }
        }),
{
    let token = match get_cookie(cookie_header, SESSION_COOKIE_NAME) {
        Some(t) => t,
        None => {
            return Err((UNAUTHORIZED, SESSION_REQUIRED));
        },
    };
    match profiles.get(token.as_str()) {
        Some(p) => Ok(p),
        None => Err((UNAUTHORIZED, SESSION_EXPIRED)),
    }
}

/// A session that was just recorded under `token` is restored by the next
/// request that presents `token`, with the same profile.
pub proof fn law_recorded_session_is_restored(
    profiles: Map<Seq<char>, GuestProfileView>,
    token: Seq<char>,
    profile: GuestProfileView,
)
    ensures
        profiles.insert(token, profile).contains_key(token),
        profiles.insert(token, profile)[token] == profile,
{
}

/// The cookie pair `poker_session=<token>` that a client sends back gives the
/// token again, for every token of the shape that this server issues.
pub proof fn law_session_cookie_round_trip(token: Seq<char>)
    requires
        is_issued_token_shape(token),
    ensures
        cookie_value(Some(SESSION_COOKIE_NAME@ + "="@ + token), SESSION_COOKIE_NAME@) == Some(token),
{
    reveal_strlit("poker_session");
    reveal_strlit("=");
    let name = SESSION_COOKIE_NAME@;
    let s = name + "="@ + token;
    let n = name.len() as int;
    let len = s.len() as int;
    assert(len == n + 1 + 32);
    assert forall|k: int| 0 <= k < len implies #[trigger] s[k] != ';' && (k != n ==> s[k] != '=')
        && !is_ws(s[k]) by {
        if k > n {
            assert(s[k] == token[k - n - 1]);
            assert(is_lower_hex(token[k - n - 1]));
        }
    }
    lemma_index_of_bounds(s, ';', 0, len);
    let e = index_of(s, ';', 0, len);
    assert(e == len);
    lemma_ws_fwd_bounds(s, 0, len);
    let a = ws_fwd(s, 0, len);
    assert(a == 0) by {
        if a > 0 {
            assert(is_ws(s[0]));
        }
    }
    lemma_ws_back_bounds(s, a, len);
    let b = ws_back(s, a, len);
    assert(b == len) by {
        if b < len {
            assert(is_ws(s[b]));
        }
    }
    lemma_index_of_bounds(s, '=', a, b);
    let p = index_of(s, '=', a, b);
    assert(s[n] == '=');
    assert(p == n);
    assert(s.subrange(a, p) =~= name);
    assert(s.subrange(p + 1, b) =~= token);
}

/// The pairs of `p` are read the same within `s = p + ";" + ...`: where no
/// pair of `p` from position `i` on is named `name`, the search in `s` goes on
/// after that `;`.
proof fn lemma_cookie_from_prefix(p: Seq<char>, s: Seq<char>, name: Seq<char>, i: int)
    requires
        0 <= i <= p.len(),
        p.len() < s.len(),
        s[p.len() as int] == ';',
        forall|k: int| 0 <= k < p.len() ==> s[k] == p[k],
        cookie_from(p, name, i) is None,
    ensures
        cookie_from(s, name, i) == cookie_from(s, name, p.len() + 1int),
    decreases p.len() - i,
{
    let n = p.len() as int;
    let ep = index_of(p, ';', i, n);
    let es = index_of(s, ';', i, s.len() as int);
    lemma_index_of_bounds(p, ';', i, n);
    lemma_index_of_bounds(s, ';', i, s.len() as int);
    if es < ep {
        assert(p[es] == s[es]);
    }
    if es > ep {
        if ep < n {
            assert(s[ep] == p[ep]);
        }
        assert(s[ep] == ';');
    }
    assert(es == ep);
    let e = ep;
    lemma_ws_fwd_agree(s, p, n, i, e);
    let a = ws_fwd(p, i, e);
    lemma_ws_fwd_bounds(p, i, e);
    lemma_ws_back_agree(s, p, n, a, e);
    let b = ws_back(p, a, e);
    lemma_ws_back_bounds(p, a, e);
    lemma_index_of_agree(s, p, n, '=', a, b);
    let q = index_of(p, '=', a, b);
    lemma_index_of_bounds(p, '=', a, b);
    assert(trim_range(s, i, e) == trim_range(p, i, e));
    if q < b {
        assert(s.subrange(a, q) =~= p.subrange(a, q));
    }
    if e < n {
        lemma_cookie_from_prefix(p, s, name, e + 1);
    }
}

/// A pair `name=value` at position `j`, after some whitespace and ended by a
/// `;` or the end of the text, is found under `name`.
proof fn lemma_cookie_pair_found(s: Seq<char>, name: Seq<char>, value: Seq<char>, j: int, lead: int)
    requires
        0 <= j,
        0 <= lead,
        name.len() > 0,
        value.len() > 0,
        j + lead + name.len() + 1 + value.len() <= s.len(),
        forall|k: int| j <= k < j + lead ==> is_ws(#[trigger] s[k]),
        s.subrange(j + lead, j + lead + name.len()) == name,
        s[j + lead + name.len()] == '=',
        s.subrange(j + lead + name.len() + 1, j + lead + name.len() + 1 + value.len()) == value,
        j + lead + name.len() + 1 + value.len() == s.len() || s[j + lead + name.len() + 1
            + value.len()] == ';',
        forall|k: int| 0 <= k < name.len() ==> #[trigger] name[k] != ';' && name[k] != '=' && !is_ws(
            name[k],
        ),
        forall|k: int| 0 <= k < value.len() ==> #[trigger] value[k] != ';',
        !is_ws(name[0]),
        !is_ws(value[value.len() - 1]),
    ensures
        cookie_from(s, name, j) == Some(value),
{
    let len = s.len() as int;
    let a0 = j + lead;
    let eq = a0 + name.len();
    let m = eq + 1 + value.len();
    assert forall|k: int| j <= k < m implies #[trigger] s[k] != ';' by {
        if a0 <= k < eq {
            assert(s[k] == s.subrange(a0, eq)[k - a0]);
        } else if eq < k {
            assert(s[k] == s.subrange(eq + 1, m)[k - eq - 1]);
        }
    }
    lemma_index_of_bounds(s, ';', j, len);
    let e = index_of(s, ';', j, len);
    if e < m {
        assert(s[e] == ';');
    }
    if e > m {
        assert(s[m] == ';');
    }
    assert(e == m);
    lemma_ws_fwd_bounds(s, j, e);
    let a = ws_fwd(s, j, e);
    assert(s[a0] == name[0]) by {
        assert(s[a0] == s.subrange(a0, eq)[0]);
    }
    if a < a0 {
        assert(!is_ws(s[a]));
    }
    if a > a0 {
        assert(is_ws(s[a0]));
    }
    assert(a == a0);
    lemma_ws_back_bounds(s, a, e);
    let b = ws_back(s, a, e);
    assert(s[m - 1] == value[value.len() - 1]) by {
        assert(s[m - 1] == s.subrange(eq + 1, m)[value.len() - 1]);
    }
    if b < m {
        assert(is_ws(s[b]) || b == m) by {
            lemma_ws_back_is_ws(s, a, e, b);
        }
    }
    assert(b == m);
    lemma_index_of_bounds(s, '=', a, b);
    let q = index_of(s, '=', a, b);
    if q < eq {
        assert(s[q] == s.subrange(a0, eq)[q - a0]);
    }
    if q > eq {
        assert(s[eq] == '=');
    }
    assert(q == eq);
    assert(s.subrange(a, q) =~= name);
    assert(s.subrange(q + 1, b) =~= value);
}

proof fn lemma_ws_back_is_ws(s: Seq<char>, lo: int, j: int, k: int)
    requires
        lo <= j,
        ws_back(s, lo, j) <= k < j,
    ensures
        is_ws(s[k]),
    decreases j - lo,
{
    if lo < j && is_ws(s[j - 1]) {
        if k < j - 1 {
            lemma_ws_back_is_ws(s, lo, j - 1, k);
        }
    }
}

/// The session cookie is found wherever it stands in a `Cookie` header, after
/// any other pairs and before any others, however long the header is: where
/// `pairs` names no session, `pairs; poker_session=<token>` followed by
/// nothing or by more pairs gives the token back.
pub proof fn law_session_cookie_found_among_other_pairs(
    pairs: Seq<char>,
    token: Seq<char>,
    rest: Seq<char>,
)
    requires
        is_issued_token_shape(token),
        cookie_value(Some(pairs), SESSION_COOKIE_NAME@) is None,
        rest.len() == 0 || rest[0] == ';',
    ensures
        cookie_value(
            Some(pairs + "; "@ + SESSION_COOKIE_NAME@ + "="@ + token + rest),
            SESSION_COOKIE_NAME@,
        ) == Some(token),
{
    reveal_strlit("poker_session");
    reveal_strlit("=");
    reveal_strlit("; ");
    let name = SESSION_COOKIE_NAME@;
    let s = pairs + "; "@ + name + "="@ + token + rest;
    let n = pairs.len() as int;
    assert(s[n] == ';');
    assert forall|k: int| 0 <= k < n implies s[k] == pairs[k] by {}
    lemma_cookie_from_prefix(pairs, s, name, 0);
    let j = n + 1;
    assert(is_ws(s[j]));
    assert forall|k: int| 0 <= k < token.len() implies #[trigger] token[k] != ';' by {
        assert(is_lower_hex(token[k]));
    }
    assert(is_lower_hex(token[31]));
    assert(s.subrange(j + 1, j + 1 + name.len()) =~= name);
    assert(s.subrange(j + 1 + name.len() + 1, j + 1 + name.len() + 1 + 32) =~= token);
    let m = j + 1 + name.len() + 1 + 32;
    if rest.len() > 0 {
        assert(s[m] == rest[0]);
    }
    lemma_cookie_pair_found(s, name, token, j, 1);
}

/// A new guest's session is recorded beside the others: every session that
/// was recorded before keeps its token and its profile, and the new token is
/// none of theirs.
pub proof fn law_new_session_keeps_the_others(
    before: Map<Seq<char>, GuestProfileView>,
    token: Seq<char>,
    profile: GuestProfileView,
)
    requires
        !before.contains_key(token),
    ensures
        ({
            let after = before.insert(token, profile);
            &&& forall|t: Seq<char>| #[trigger]
                before.contains_key(t) ==> t != token && after.contains_key(t) && after[t]
                    == before[t]
            &&& after.contains_key(token) && after[token] == profile
            &&& after.dom().len() == before.dom().len() + 1 || !before.dom().finite()
        }),
{
    assert(before.insert(token, profile).dom() =~= before.dom().insert(token));
}

} // verus!
