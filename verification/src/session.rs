//! The cookie by which the server knows a session.
use vstd::prelude::*;
use vstd::slice::slice_subrange;

use crate::text::{
    begins_with, chars_of, contains_text, find_char, first_index, first_index_bounds,
    first_index_is, has_part, pieces_of, same_text, slices, split_at_each, starts_with, text_of,
    trim, trimmed,
};

verus! {

/// The host whose cookies count.
pub const SESSION_HOST: &'static str = "weeksystem.linker.cc";

/// A cookie: its name and its value.
pub struct Cookie {
    pub name: String,
    pub value: String,
}

/// The name and the value of a cookie.
pub type CookieView = (Seq<char>, Seq<char>);

impl View for Cookie {
    type V = CookieView;

    open spec fn view(&self) -> CookieView {
        (self.name@, self.value@)
    }
}

/// A cookie in the store, with the domain it belongs to.
pub struct StoredCookie {
    pub domain: Option<String>,
    pub name: String,
    pub value: String,
}

/// Whether a cookie with this name marks a session.
pub open spec fn is_session_name(name: Seq<char>) -> bool {
    name == "session_for:index_php"@ || name == "session_for%3Aindex_php"@
}

/// Whether the value of a session cookie is a ticket, which only an active session has.
pub open spec fn is_ticket(value: Seq<char>) -> bool {
    begins_with(value, "ST-"@)
}

/// The session cookie that a piece of a cookie header holds, if it holds one.
pub open spec fn header_entry(piece: Seq<char>) -> Option<CookieView> {
    let t = trimmed(piece);
    let k = first_index(t, '=');
    if 0 <= k < t.len() && is_session_name(t.take(k)) {
        Some((t.take(k), t.skip(k + 1)))
    } else {
        None
    }
}

/// The session cookies that the pieces of a cookie header hold.
pub open spec fn header_entries(header: Seq<char>) -> Seq<Option<CookieView>> {
    pieces_of(header, ';').map_values(|p: Seq<char>| header_entry(p))
}

/// The session cookie that a cookie in the store is, if it is one.
pub open spec fn stored_entry(c: StoredCookie) -> Option<CookieView> {
    if c.domain is Some && contains_text(c.domain->0@, SESSION_HOST@) && is_session_name(c.name@) {
        Some((c.name@, c.value@))
    } else {
        None
    }
}

/// The session cookies that a store holds.
pub open spec fn stored_entries(stored: Seq<StoredCookie>) -> Seq<Option<CookieView>> {
    stored.map_values(|c: StoredCookie| stored_entry(c))
}

/// Whether there is a session cookie whose value is a ticket.
pub open spec fn ticketed(entry: Option<CookieView>) -> bool {
    entry matches Some(c) && is_ticket(c.1)
}

/// The first session cookie whose value is a ticket.
pub open spec fn first_ticket(entries: Seq<Option<CookieView>>) -> Option<CookieView>
    decreases entries.len(),
{
    if entries.len() == 0 {
        None
    } else if ticketed(entries[0]) {
        entries[0]
    } else {
        first_ticket(entries.drop_first())
    }
}

/// The last session cookie.
pub open spec fn last_cookie(entries: Seq<Option<CookieView>>) -> Option<CookieView>
    decreases entries.len(),
{
    if entries.len() == 0 {
        None
    } else if entries.last() is Some {
        entries.last()
    } else {
        last_cookie(entries.drop_last())
    }
}

/// The cookie that is taken from a list: the first with a ticket, or else the last.
pub open spec fn picked(entries: Seq<Option<CookieView>>) -> Option<CookieView> {
    match first_ticket(entries) {
        Some(c) => Some(c),
        None => last_cookie(entries),
    }
}

/// The session cookie: taken from the header that would be sent, or else from the store.
pub open spec fn session_cookie_of(header: Option<Seq<char>>, stored: Seq<StoredCookie>) -> Option<
    CookieView,
> {
    let from_header = match header {
        Some(h) => picked(header_entries(h)),
        None => None,
    };
    match from_header {
        Some(c) => Some(c),
        None => picked(stored_entries(stored)),
    }
}

/// The name and the value of a cookie, if there is one.
pub open spec fn opt_cookie(c: Option<Cookie>) -> Option<CookieView> {
    match c {
        Some(x) => Some(x@),
        None => None,
    }
}

/// The names and the values of cookies.
pub open spec fn entries_view(v: Seq<Option<Cookie>>) -> Seq<Option<CookieView>> {
    v.map_values(|c: Option<Cookie>| opt_cookie(c))
}

fn session_name(name: &str) -> (r: bool)
    ensures
        r == is_session_name(name@),
{
    same_text(name, "session_for:index_php") || same_text(name, "session_for%3Aindex_php")
}

/// Tells whether the value of a cookie is a ticket.
pub fn has_ticket(value: &str) -> (r: bool)
    ensures
        r == is_ticket(value@),
{
    starts_with(value, "ST-")
}

proof fn first_ticket_prefix(entries: Seq<Option<CookieView>>, k: int)
    requires
        0 <= k <= entries.len(),
        forall|j: int|
            0 <= j < k ==> !ticketed(#[trigger] entries[j]),
    ensures
        first_ticket(entries) == first_ticket(entries.skip(k)),
    decreases k,
{
    if k == 0 {
        assert(entries.skip(0) =~= entries);
    } else {
        assert(!ticketed(entries[0]));
        let t = entries.drop_first();
        assert forall|j: int| 0 <= j < k - 1 implies !ticketed(#[trigger] t[j]) by {
            assert(t[j] == entries[j + 1]);
        }
        first_ticket_prefix(t, k - 1);
        assert(t.skip(k - 1) =~= entries.skip(k));
    }
}

fn clone_cookie(c: &Cookie) -> (r: Cookie)
    ensures
        r@ == c@,
{
    Cookie { name: c.name.clone(), value: c.value.clone() }
}

/// Takes a cookie from a list.
fn pick(entries: &Vec<Option<Cookie>>) -> (r: Option<Cookie>)
    ensures
        opt_cookie(r) == picked(entries_view(entries@)),
{
    let ghost all = entries_view(entries@);
    let mut fallback: Option<usize> = None;
    let mut i: usize = 0;
    while i < entries.len()
        invariant
            i <= entries@.len(),
            all == entries_view(entries@),
            forall|j: int|
                0 <= j < i ==> !ticketed(#[trigger] all[j]),
            match fallback {
                Some(k) => k < i && all[k as int] is Some && last_cookie(all.take(i as int))
                    == all[k as int],
                None => last_cookie(all.take(i as int)) is None,
            },
        decreases entries@.len() - i,
    {
        let ghost next = all.take(i + 1);
        assert(next.drop_last() =~= all.take(i as int));
        assert(next.last() == opt_cookie(entries@[i as int]));
        assert(all[i as int] == opt_cookie(entries@[i as int]));
        match &entries[i] {
            Some(c) => {
                if has_ticket(c.value.as_str()) {
                    proof {
                        first_ticket_prefix(all, i as int);
                        assert(all.skip(i as int)[0] == all[i as int]);
                    }
                    return Some(clone_cookie(c));
                }
                fallback = Some(i);
            },
            None => {},
        }
        i += 1;
    }
    proof {
        first_ticket_prefix(all, i as int);
        assert(all.skip(i as int) =~= seq![]);
        assert(all.take(i as int) =~= all);
    }
    match fallback {
        Some(k) => match &entries[k] {
            Some(c) => Some(clone_cookie(c)),
            None => None,
        },
        None => None,
    }
}

/// Reads a piece of a cookie header.
fn read_header_entry(piece: &[char]) -> (r: Option<Cookie>)
    ensures
        opt_cookie(r) == header_entry(piece@),
{
    let t = trim(piece);
    assert(t@.skip(0) =~= t@);
    let k = find_char(t, 0, '=');
    if k == t.len() {
        return None;
    }
    let name_part = slice_subrange(t, 0, k);
    let value_part = slice_subrange(t, k + 1, t.len());
    assert(name_part@ =~= t@.take(k as int));
    assert(value_part@ =~= t@.skip(k + 1));
    let name = text_of(name_part);
    if session_name(name.as_str()) {
        Some(Cookie { name, value: text_of(value_part) })
    } else {
        None
    }
}

/// Reads a cookie of the store.
fn read_stored_entry(c: &StoredCookie) -> (r: Option<Cookie>)
    ensures
        opt_cookie(r) == stored_entry(*c),
{
    let ours = match &c.domain {
        Some(d) => has_part(d.as_str(), SESSION_HOST),
        None => false,
    };
    if ours && session_name(c.name.as_str()) {
        Some(Cookie { name: c.name.clone(), value: c.value.clone() })
    } else {
        None
    }
}

fn pick_from_header(header: &str) -> (r: Option<Cookie>)
    ensures
        opt_cookie(r) == picked(header_entries(header@)),
{
    let chars = chars_of(header);
    let pieces = split_at_each(chars.as_slice(), ';');
    let ghost texts = pieces_of(header@, ';');
    let mut entries: Vec<Option<Cookie>> = Vec::new();
    let mut i: usize = 0;
    while i < pieces.len()
        invariant
            i <= pieces@.len(),
            texts == slices(pieces@),
            entries@.len() == i,
            forall|j: int| 0 <= j < i ==> opt_cookie(#[trigger] entries@[j]) == header_entry(texts[j]),
        decreases pieces@.len() - i,
    {
        assert(texts[i as int] == pieces@[i as int]@);
        let entry = read_header_entry(pieces[i]);
        entries.push(entry);
        i += 1;
    }
    assert(entries_view(entries@) =~= header_entries(header@));
    pick(&entries)
}

/// Finds the session cookie.
pub fn session_cookie(header: Option<&str>, stored: &Vec<StoredCookie>) -> (r: Option<Cookie>)
    ensures
        opt_cookie(r) == session_cookie_of(
            match header {
                Some(h) => Some(h@),
                None => None,
            },
            stored@,
        ),
{
    if let Some(h) = header {
        let found = pick_from_header(h);
        if found.is_some() {
            return found;
        }
    }
    let mut entries: Vec<Option<Cookie>> = Vec::new();
    let mut i: usize = 0;
    while i < stored.len()
        invariant
            i <= stored@.len(),
            entries@.len() == i,
            forall|j: int|
                0 <= j < i ==> opt_cookie(#[trigger] entries@[j]) == stored_entry(stored@[j]),
        decreases stored@.len() - i,
    {
        let entry = read_stored_entry(&stored[i]);
        entries.push(entry);
        i += 1;
    }
    assert(entries_view(entries@) =~= stored_entries(stored@));
    pick(&entries)
}

// ---------------------------------------------------------------------------
// What holds of session cookies
// ---------------------------------------------------------------------------
/// Whether a name is one of the two under which the server keeps a session.
pub open spec fn names_session(name: Seq<char>) -> bool {
    name == "session_for:index_php"@ || name == "session_for%3Aindex_php"@
}

/// Whether a value begins with the letters and the hyphen that mark a ticket.
pub open spec fn begins_as_ticket(value: Seq<char>) -> bool {
    value.len() >= 3 && value[0] == 'S' && value[1] == 'T' && value[2] == '-'
}

/// A value is a ticket by its first three characters alone.
pub proof fn tickets_begin_alike(value: Seq<char>)
    ensures
        is_ticket(value) <==> begins_as_ticket(value),
{
    reveal_strlit("ST-");
    if begins_as_ticket(value) {
        assert(value.subrange(0, 3) =~= "ST-"@);
    }
    if is_ticket(value) {
        assert(value.subrange(0, 3)[0] == 'S');
        assert(value.subrange(0, 3)[1] == 'T');
        assert(value.subrange(0, 3)[2] == '-');
    }
}

/// A piece of a header holds a session cookie exactly where it is, without the white space around
/// it, one of the two names, an equals sign and the value.
pub proof fn pieces_hold_named_cookies(piece: Seq<char>, name: Seq<char>, value: Seq<char>)
    ensures
        names_session(name) && trimmed(piece) == name + seq!['='] + value ==> header_entry(piece)
            == Some((name, value)),
        header_entry(piece) == Some((name, value)) ==> names_session(name) && trimmed(piece) == name
            + seq!['='] + value,
{
    let t = trimmed(piece);
    reveal_strlit("session_for:index_php");
    reveal_strlit("session_for%3Aindex_php");
    if names_session(name) && t == name + seq!['='] + value {
        assert forall|i: int| 0 <= i < name.len() implies t[i] != '=' by {
            assert(t[i] == name[i]);
        }
        first_index_is(t, '=', name.len() as int);
        assert(t.take(name.len() as int) =~= name);
        assert(t.skip(name.len() as int + 1) =~= value);
    }
    if header_entry(piece) == Some((name, value)) {
        first_index_bounds(t, '=');
        assert(t =~= name + seq!['='] + value);
    }
}

/// A cookie of the store counts exactly where its domain holds the name of the host and its own
/// name is one of the two.
pub proof fn stored_cookies_count_by_host_and_name(c: StoredCookie)
    ensures
        stored_entry(c) is Some <==> (c.domain matches Some(d) && contains_text(
            d@,
            "weeksystem.linker.cc"@,
        )) && names_session(c.name@),
        stored_entry(c) is Some ==> stored_entry(c) == Some((c.name@, c.value@)),
{
}

proof fn last_cookie_is(entries: Seq<Option<CookieView>>, k: int)
    requires
        0 <= k < entries.len(),
        entries[k] is Some,
        forall|j: int| k < j < entries.len() ==> (#[trigger] entries[j]) is None,
    ensures
        last_cookie(entries) == entries[k],
    decreases entries.len(),
{
    if k < entries.len() - 1 {
        assert(entries[entries.len() - 1] is None);
        let t = entries.drop_last();
        assert forall|j: int| k < j < t.len() implies (#[trigger] t[j]) is None by {
            assert(t[j] == entries[j]);
        }
        last_cookie_is(t, k);
    }
}

proof fn no_cookie(entries: Seq<Option<CookieView>>)
    requires
        forall|j: int| 0 <= j < entries.len() ==> (#[trigger] entries[j]) is None,
    ensures
        last_cookie(entries) is None,
    decreases entries.len(),
{
    if entries.len() > 0 {
        assert(entries[entries.len() - 1] is None);
        let t = entries.drop_last();
        assert forall|j: int| 0 <= j < t.len() implies (#[trigger] t[j]) is None by {
            assert(t[j] == entries[j]);
        }
        no_cookie(t);
    }
}

/// Whether there is a cookie and its value begins as a ticket.
pub open spec fn has_ticket_value(entry: Option<CookieView>) -> bool {
    entry matches Some(c) && begins_as_ticket(c.1)
}

proof fn ticketed_by_value(entry: Option<CookieView>)
    ensures
        ticketed(entry) <==> has_ticket_value(entry),
{
    if let Some(c) = entry {
        tickets_begin_alike(c.1);
    }
}

/// Of several session cookies the first whose value begins as a ticket is taken; where none does,
/// the last is; where there is no session cookie, none is.
pub proof fn ticket_is_preferred(entries: Seq<Option<CookieView>>, k: int)
    ensures
        0 <= k < entries.len() && has_ticket_value(entries[k]) && (forall|j: int|
            0 <= j < k ==> !has_ticket_value(#[trigger] entries[j])) ==> picked(entries)
            == entries[k],
        0 <= k < entries.len() && entries[k] is Some && (forall|j: int|
            k < j < entries.len() ==> (#[trigger] entries[j]) is None) && (forall|j: int|
            0 <= j < entries.len() ==> !has_ticket_value(#[trigger] entries[j])) ==> picked(entries)
            == entries[k],
        (forall|j: int| 0 <= j < entries.len() ==> (#[trigger] entries[j]) is None) ==> picked(
            entries,
        ) is None,
{
    let n = entries.len() as int;
    assert forall|j: int| 0 <= j < n implies ticketed(#[trigger] entries[j]) == has_ticket_value(
        entries[j],
    ) by {
        ticketed_by_value(entries[j]);
    }
    if 0 <= k < n && has_ticket_value(entries[k]) && (forall|j: int|
        0 <= j < k ==> !has_ticket_value(#[trigger] entries[j])) {
        first_ticket_prefix(entries, k);
        assert(entries.skip(k)[0] == entries[k]);
    }
    if forall|j: int| 0 <= j < n ==> !has_ticket_value(#[trigger] entries[j]) {
        first_ticket_prefix(entries, n);
        assert(entries.skip(n) =~= seq![]);
        if 0 <= k < n && entries[k] is Some && (forall|j: int|
            k < j < n ==> (#[trigger] entries[j]) is None) {
            last_cookie_is(entries, k);
        }
    }
    if forall|j: int| 0 <= j < n ==> (#[trigger] entries[j]) is None {
        assert forall|j: int| 0 <= j < n implies !ticketed(#[trigger] entries[j]) by {
            assert(entries[j] is None);
        }
        first_ticket_prefix(entries, n);
        assert(entries.skip(n) =~= seq![]);
        no_cookie(entries);
    }
}

/// The cookies that would be sent count before those of the store: the store is asked only where
/// the header holds no session cookie. Each piece of the header and each cookie of the store
/// counts for itself.
pub proof fn header_counts_before_the_store(
    header: Seq<char>,
    stored: Seq<StoredCookie>,
    k: int,
)
    ensures
        session_cookie_of(None, stored) == picked(stored_entries(stored)),
        picked(header_entries(header)) is Some ==> session_cookie_of(Some(header), stored)
            == picked(header_entries(header)),
        picked(header_entries(header)) is None ==> session_cookie_of(Some(header), stored)
            == picked(stored_entries(stored)),
        header_entries(header).len() == pieces_of(header, ';').len(),
        0 <= k < pieces_of(header, ';').len() ==> header_entries(header)[k] == header_entry(
            pieces_of(header, ';')[k],
        ),
        stored_entries(stored).len() == stored.len(),
        0 <= k < stored.len() ==> stored_entries(stored)[k] == stored_entry(stored[k]),
{
}

} // verus!
