//! The in-memory index of the wallet store: aliases mapped to addresses,
//! plus the stored key records the readiness check draws its candidates from.
//!
//! The surrounding application loads the persisted wallet file into this
//! index and writes it back; the library owns every decision made on it.

use vstd::prelude::*;
use crate::errors::Failure;
use crate::text::{strip_marker, trim_chars};

verus! {

/// One alias binding: a human-chosen name for a transparent address or a
/// shielded payment address.
pub struct AddressEntry {
    pub alias: String,
    pub address: String,
    pub shielded: bool,
}

/// First-match lookup of `key` among `(alias, address, shielded)` triples.
pub open spec fn lookup(
    m: Seq<(Seq<char>, Seq<char>, bool)>,
    key: Seq<char>,
) -> Option<Seq<char>>
    decreases m.len(),
{
    if m.len() == 0 {
        None
    } else if m[0].0 == key {
        Some(m[0].1)
    } else {
        lookup(m.subrange(1, m.len() as int), key)
    }
}

/// No alias occurs twice.
pub open spec fn unique_aliases(m: Seq<(Seq<char>, Seq<char>, bool)>) -> bool {
    forall|i: int, j: int| 0 <= i < j < m.len() ==> m[i].0 != m[j].0
}

proof fn lemma_lookup_some(m: Seq<(Seq<char>, Seq<char>, bool)>, key: Seq<char>, j: int)
    requires
        0 <= j < m.len(),
        m[j].0 == key,
        forall|i: int| 0 <= i < j ==> m[i].0 != key,
    ensures
        lookup(m, key) == Some(m[j].1),
    decreases j,
{
    if j > 0 {
        let rest = m.subrange(1, m.len() as int);
        lemma_lookup_some(rest, key, j - 1);
    }
}

proof fn lemma_lookup_none(m: Seq<(Seq<char>, Seq<char>, bool)>, key: Seq<char>)
    requires
        forall|i: int| 0 <= i < m.len() ==> m[i].0 != key,
    ensures
        lookup(m, key) is None,
    decreases m.len(),
{
    if m.len() > 0 {
        lemma_lookup_none(m.subrange(1, m.len() as int), key);
    }
}

proof fn lemma_lookup_remove_other(
    m: Seq<(Seq<char>, Seq<char>, bool)>,
    j: int,
    key: Seq<char>,
)
    requires
        0 <= j < m.len(),
        m[j].0 != key,
    ensures
        lookup(m.remove(j), key) == lookup(m, key),
    decreases j,
{
    let removed = m.remove(j);
    if j == 0 {
        assert(removed =~= m.subrange(1, m.len() as int));
    } else {
        let rest = m.subrange(1, m.len() as int);
        lemma_lookup_remove_other(rest, j - 1, key);
        assert(removed.subrange(1, removed.len() as int) =~= rest.remove(j - 1));
    }
}

proof fn lemma_lookup_push(
    m: Seq<(Seq<char>, Seq<char>, bool)>,
    e: (Seq<char>, Seq<char>, bool),
    key: Seq<char>,
)
    ensures
        lookup(m.push(e), key) == if lookup(m, key) is Some {
            lookup(m, key)
        } else if e.0 == key {
            Some(e.1)
        } else {
            None::<Seq<char>>
        },
    decreases m.len(),
{
    let pushed = m.push(e);
    if m.len() == 0 {
        assert(pushed[0] == e);
        let empty_tail = pushed.subrange(1, 1);
        assert(empty_tail =~= Seq::<(Seq<char>, Seq<char>, bool)>::empty());
        if e.0 == key {
            assert(lookup(pushed, key) == Some(e.1));
        } else {
            assert(lookup(pushed, key) == lookup(empty_tail, key));
            assert(lookup(empty_tail, key) is None);
        }
    } else {
        let tail = m.subrange(1, m.len() as int);
        lemma_lookup_push(tail, e, key);
        assert(pushed[0] == m[0]);
        assert(pushed.subrange(1, pushed.len() as int) =~= tail.push(e));
        if m[0].0 == key {
            assert(lookup(pushed, key) == Some(m[0].1));
            assert(lookup(m, key) == Some(m[0].1));
        } else {
            assert(lookup(pushed, key) == lookup(tail.push(e), key));
            assert(lookup(m, key) == lookup(tail, key));
        }
    }
}

/// The wallet store's loaded index.
pub struct WalletStore {
    entries: Vec<AddressEntry>,
    public_keys: Vec<String>,
    view_keys: Vec<String>,
}

impl View for AddressEntry {
    type V = (Seq<char>, Seq<char>, bool);

    open spec fn view(&self) -> (Seq<char>, Seq<char>, bool) {
        (self.alias@, self.address@, self.shielded)
    }
}

impl WalletStore {
    /// The alias bindings, in insertion order.
    pub closed spec fn entries_view(&self) -> Seq<(Seq<char>, Seq<char>, bool)> {
        self.entries@.map_values(|e: AddressEntry| e@)
    }

    /// The address an alias resolves to, if any.
    pub open spec fn spec_resolve(&self, alias: Seq<char>) -> Option<Seq<char>> {
        lookup(self.entries_view(), alias)
    }

    /// The stored public keys, the readiness check's candidate signing keys.
    pub closed spec fn public_keys_view(&self) -> Seq<Seq<char>> {
        self.public_keys.deep_view()
    }

    /// The stored viewing keys.
    pub closed spec fn view_keys_view(&self) -> Seq<Seq<char>> {
        self.view_keys.deep_view()
    }

    /// Every alias is bound at most once.
    pub open spec fn wf(&self) -> bool {
        unique_aliases(self.entries_view())
    }

    /// An empty store.
    pub fn new() -> (s: WalletStore)
        ensures
            s.wf(),
            s.entries_view() =~= Seq::<(Seq<char>, Seq<char>, bool)>::empty(),
            s.public_keys_view() =~= Seq::<Seq<char>>::empty(),
            s.view_keys_view() =~= Seq::<Seq<char>>::empty(),
    {
        WalletStore { entries: Vec::new(), public_keys: Vec::new(), view_keys: Vec::new() }
    }

    /// The index of the entry bound to `alias`, if one exists.
    fn position_of(&self, alias: &str) -> (r: Option<usize>)
        ensures
            match r {
                Some(j) => {
                    &&& 0 <= j < self.entries_view().len()
                    &&& self.entries_view()[j as int].0 == alias@
                    &&& forall|i: int| 0 <= i < j ==> self.entries_view()[i].0 != alias@
                },
                None => forall|i: int|
                    0 <= i < self.entries_view().len() ==> self.entries_view()[i].0 != alias@,
            },
    {
        let mut j: usize = 0;
        while j < self.entries.len()
            invariant
                j <= self.entries.len(),
                forall|i: int| 0 <= i < j ==> self.entries_view()[i].0 != alias@,
            decreases self.entries.len() - j,
        {
            if crate::text::str_eq(self.entries[j].alias.as_str(), alias) {
                return Some(j);
            }
            j = j + 1;
        }
        None
    }

    /// Look an alias up, handing the bound address back by value.
    pub fn find_address(&self, alias: &str) -> (r: Option<String>)
        ensures
            match r {
                Some(a) => self.spec_resolve(alias@) == Some(a@),
                None => self.spec_resolve(alias@) is None,
            },
    {
        match self.position_of(alias) {
            Some(j) => {
                proof {
                    lemma_lookup_some(self.entries_view(), alias@, j as int);
                }
                Some(self.entries[j].address.clone())
            },
            None => {
                proof {
                    lemma_lookup_none(self.entries_view(), alias@);
                }
                None
            },
        }
    }

    /// The alias resolver: a missing alias is a terminal, user-reportable
    /// condition, never created implicitly.
    pub fn resolve(&self, alias: &str) -> (r: Result<String, Failure>)
        ensures
            match r {
                Ok(a) => self.spec_resolve(alias@) == Some(a@),
                Err(f) => f is NotFound && self.spec_resolve(alias@) is None,
            },
    {
        match self.find_address(alias) {
            Some(a) => Ok(a),
            None => Err(Failure::NotFound),
        }
    }

    /// Bind `alias` to an address. An existing binding is replaced only
    /// when `overwrite` is set; otherwise the store is left untouched and
    /// `false` comes back.
    pub fn insert_address_kind(
        &mut self,
        alias: &str,
        address: &str,
        overwrite: bool,
        shielded: bool,
    ) -> (ok: bool)
        requires
            old(self).wf(),
        ensures
            final(self).wf(),
            ok == (overwrite || old(self).spec_resolve(alias@) is None),
            ok ==> final(self).spec_resolve(alias@) == Some(address@),
            ok ==> forall|k: Seq<char>| k != alias@ ==>
                final(self).spec_resolve(k) == old(self).spec_resolve(k),
            !ok ==> *final(self) == *old(self),
            final(self).public_keys_view() == old(self).public_keys_view(),
            final(self).view_keys_view() == old(self).view_keys_view(),
    {
        let ghost m0 = self.entries_view();
        let found = self.position_of(alias);
        match found {
            Some(j) => {
                proof {
                    lemma_lookup_some(m0, alias@, j as int);
                }
                if !overwrite {
                    return false;
                }
                self.entries.remove(j);
                proof {
                    assert(self.entries_view() =~= m0.remove(j as int));
                    assert forall|i: int| 0 <= i < self.entries_view().len() implies
                        self.entries_view()[i].0 != alias@ by {
                        if i < j {
                            assert(self.entries_view()[i] == m0[i]);
                        } else {
                            assert(self.entries_view()[i] == m0[i + 1]);
                        }
                    }
                }
            },
            None => {
                proof {
                    lemma_lookup_none(m0, alias@);
                }
            },
        }
        let ghost m1 = self.entries_view();
        let entry = AddressEntry {
            alias: alias.to_owned(),
            address: address.to_owned(),
            shielded,
        };
        self.entries.push(entry);
        proof {
            assert(self.entries_view() =~= m1.push((alias@, address@, shielded)));
            lemma_lookup_none(m1, alias@);
            lemma_lookup_push(m1, (alias@, address@, shielded), alias@);
            assert forall|k: Seq<char>| k != alias@ implies
                lookup(self.entries_view(), k) == lookup(m0, k) by {
                lemma_lookup_push(m1, (alias@, address@, shielded), k);
                if found is Some {
                    lemma_lookup_remove_other(m0, found->0 as int, k);
                }
            }
        }
        true
    }

    /// Bind an alias to a transparent address.
    pub fn insert_address(&mut self, alias: &str, address: &str, overwrite: bool) -> (ok: bool)
        requires
            old(self).wf(),
        ensures
            final(self).wf(),
            ok == (overwrite || old(self).spec_resolve(alias@) is None),
            ok ==> final(self).spec_resolve(alias@) == Some(address@),
            ok ==> forall|k: Seq<char>| k != alias@ ==>
                final(self).spec_resolve(k) == old(self).spec_resolve(k),
            !ok ==> *final(self) == *old(self),
            final(self).public_keys_view() == old(self).public_keys_view(),
            final(self).view_keys_view() == old(self).view_keys_view(),
    {
        self.insert_address_kind(alias, address, overwrite, false)
    }

    /// Bind an alias to a shielded payment address, as address generation
    /// stores its result.
    pub fn insert_payment_addr(&mut self, alias: &str, address: &str, overwrite: bool) -> (ok:
        bool)
        requires
            old(self).wf(),
        ensures
            final(self).wf(),
            ok == (overwrite || old(self).spec_resolve(alias@) is None),
            ok ==> final(self).spec_resolve(alias@) == Some(address@),
            ok ==> forall|k: Seq<char>| k != alias@ ==>
                final(self).spec_resolve(k) == old(self).spec_resolve(k),
            !ok ==> *final(self) == *old(self),
            final(self).public_keys_view() == old(self).public_keys_view(),
            final(self).view_keys_view() == old(self).view_keys_view(),
    {
        self.insert_address_kind(alias, address, overwrite, true)
    }

    /// Record a stored viewing key, trimmed the way the wallet file
    /// scraper hands keys out.
    pub fn add_view_key(&mut self, raw: &str)
        ensures
            final(self).view_keys_view() =~= old(self).view_keys_view().push(trim_chars(raw@)),
            final(self).public_keys_view() == old(self).public_keys_view(),
            final(self).entries_view() == old(self).entries_view(),
            final(self).wf() == old(self).wf(),
    {
        let cleaned = crate::text::clean_address(raw);
        self.view_keys.push(cleaned);
    }

    /// The stored viewing keys.
    pub fn list_view_keys(&self) -> (r: &Vec<String>)
        ensures
            r.deep_view() == self.view_keys_view(),
    {
        &self.view_keys
    }

    /// The stored public keys: the readiness check's candidate signing keys.
    pub fn list_public_keys(&self) -> (r: &Vec<String>)
        ensures
            r.deep_view() == self.public_keys_view(),
    {
        &self.public_keys
    }
}

impl WalletStore {
    /// Round trip: an address inserted with `overwrite` set and resolved
    /// straight after comes back unchanged.
    pub fn insert_then_resolve(&mut self, alias: &str, address: &str) -> (r: Result<
        String,
        Failure,
    >)
        requires
            old(self).wf(),
        ensures
            final(self).wf(),
            r matches Ok(a) && a@ == address@,
    {
        self.insert_address(alias, address, true);
        self.resolve(alias)
    }
}


/// The display lines for the shielded payment addresses of a store, in
/// entry order: one `alias = "address"` line each.
pub open spec fn payment_lines(m: Seq<(Seq<char>, Seq<char>, bool)>) -> Seq<Seq<char>>
    decreases m.len(),
{
    if m.len() == 0 {
        Seq::<Seq<char>>::empty()
    } else {
        let rest = payment_lines(m.subrange(1, m.len() as int));
        if m[0].2 {
            seq![payment_line(m[0].0, m[0].1)] + rest
        } else {
            rest
        }
    }
}

/// One display line: the alias, then the address in quotes.
pub open spec fn payment_line(alias: Seq<char>, address: Seq<char>) -> Seq<char> {
    alias + " = \""@ + address + "\""@
}

impl WalletStore {
    /// Record a stored public key, its wallet-file tag removed, as a
    /// candidate signing key for the readiness check.
    pub fn add_public_key(&mut self, raw: &str)
        ensures
            final(self).public_keys_view() =~= old(self).public_keys_view().push(
                strip_marker(raw@),
            ),
            final(self).view_keys_view() == old(self).view_keys_view(),
            final(self).entries_view() == old(self).entries_view(),
            final(self).wf() == old(self).wf(),
    {
        let ghost pre = self.public_keys;
        let cleaned = crate::text::strip_key_marker(raw);
        self.public_keys.push(cleaned);
        proof {
            crate::text::lemma_strings_snoc(pre, self.public_keys);
        }
    }

    /// Whether address generation should run for an alias: always under
    /// force, and otherwise only while the alias is unbound.
    pub fn should_generate_payment_address(&self, alias: &str, force: bool) -> (r: bool)
        ensures
            r == (force || self.spec_resolve(alias@) is None),
    {
        if force {
            true
        } else {
            match self.find_address(alias) {
                Some(_) => false,
                None => true,
            }
        }
    }

    /// The display lines for the stored payment addresses, one
    /// `alias = "address"` line per shielded entry, in entry order.
    pub fn format_payment_addresses(&self) -> (r: Vec<String>)
        ensures
            r.deep_view() == payment_lines(self.entries_view()),
    {
        let ghost m = self.entries_view();
        let mut r: Vec<String> = Vec::new();
        let mut i: usize = 0;
        proof {
            assert(m.subrange(0, m.len() as int) =~= m);
            assert(r.deep_view() =~= Seq::<Seq<char>>::empty());
            assert(r.deep_view() + payment_lines(m) =~= payment_lines(m));
        }
        while i < self.entries.len()
            invariant
                i <= self.entries@.len(),
                m == self.entries_view(),
                m.len() == self.entries@.len(),
                payment_lines(m) == r.deep_view() + payment_lines(
                    m.subrange(i as int, m.len() as int),
                ),
            decreases self.entries@.len() - i,
        {
            let ghost suffix = m.subrange(i as int, m.len() as int);
            proof {
                assert(suffix[0] == m[i as int]);
                assert(suffix.subrange(1, suffix.len() as int) =~= m.subrange(
                    i as int + 1,
                    m.len() as int,
                ));
            }
            if self.entries[i].shielded {
                let ghost pre = r;
                let mut line = self.entries[i].alias.clone();
                line.append(" = \"");
                line.append(self.entries[i].address.as_str());
                line.append("\"");
                r.push(line);
                proof {
                    crate::text::lemma_strings_snoc(pre, r);
                    assert(r.deep_view() =~= pre.deep_view() + seq![
                        payment_line(m[i as int].0, m[i as int].1),
                    ]);
                }
            }
            i = i + 1;
        }
        proof {
            assert(m.subrange(m.len() as int, m.len() as int) =~= Seq::<(
                Seq<char>,
                Seq<char>,
                bool,
            )>::empty());
            assert(r.deep_view() + Seq::<Seq<char>>::empty() =~= r.deep_view());
        }
        r
    }
}

} // verus!
