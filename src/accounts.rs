//! The ordered collection of listed accounts.

use vstd::multiset::Multiset;
use vstd::prelude::*;

use crate::account::{project, Account, AccountModel};
use crate::config::DeserializedAccountConfig;
use crate::order::{lemma_lex_total, lemma_lex_trans, lex_le, lex_lt, name_lt};

verus! {

/// The accounts of a configuration, ordered by name from the greatest to the
/// least.
#[derive(Debug, Default)]
pub struct Accounts(pub Vec<Account>);

/// The models of a sequence of accounts.
pub open spec fn models(s: Seq<Account>) -> Seq<AccountModel> {
    s.map_values(|a: Account| a@)
}

/// The accounts that a sequence of configuration entries projects to, one per
/// entry and in the same order.
pub open spec fn projected(entries: Seq<(String, DeserializedAccountConfig)>) -> Seq<AccountModel> {
    entries.map_values(|e: (String, DeserializedAccountConfig)| project(e.0@, e.1))
}

/// The listing order: `a` is placed before `b` when its name is greater.
pub open spec fn goes_before(a: AccountModel, b: AccountModel) -> bool {
    lex_lt(b.name, a.name)
}

/// Names never increase along the sequence: each account's name is greater
/// than or equal to the name of every account placed after it.
pub open spec fn in_listing_order(s: Seq<AccountModel>) -> bool {
    forall|i: int, j: int| 0 <= i < j < s.len() ==> lex_le(#[trigger] s[j].name, #[trigger] s[i].name)
}

/// The entries of a mapping, as names and configurations.
pub open spec fn entry_models(entries: Seq<(String, DeserializedAccountConfig)>) -> Seq<(Seq<char>, DeserializedAccountConfig)> {
    entries.map_values(|e: (String, DeserializedAccountConfig)| (e.0@, e.1))
}

/// No two entries share a name, as the keys of a mapping.
pub open spec fn unique_names(entries: Seq<(String, DeserializedAccountConfig)>) -> bool {
    forall|i: int, j: int|
        0 <= i < entries.len() && 0 <= j < entries.len() && i != j ==> #[trigger] entries[i].0@ != #[trigger] entries[j].0@
}

/// Within `m`, an account is known by its name.
pub open spec fn known_by_name(m: Multiset<AccountModel>) -> bool {
    forall|a: AccountModel, b: AccountModel|
        #[trigger] m.contains(a) && #[trigger] m.contains(b) && a.name == b.name ==> a == b
}

impl View for Accounts {
    type V = Seq<AccountModel>;

    open spec fn view(&self) -> Seq<AccountModel> {
        models(self.0@)
    }
}

/// The ordering policy of the listing, on its own so that it reads in one
/// place: `a` goes before `b` when its name is greater.
pub fn precedes(a: &Account, b: &Account) -> (r: bool)
    ensures
        r == goes_before(a@, b@),
{
    name_lt(b.name.as_str(), a.name.as_str())
}

/// Where `account` enters `accounts` so that the order is kept: after every
/// account that it does not go before.
fn insertion_point(accounts: &Vec<Account>, account: &Account) -> (pos: usize)
    ensures
        pos <= accounts@.len(),
        forall|k: int| 0 <= k < pos ==> !goes_before(account@, #[trigger] accounts@[k]@),
        pos < accounts@.len() ==> goes_before(account@, accounts@[pos as int]@),
{
    let mut pos: usize = 0;
    while pos < accounts.len()
        invariant
            pos <= accounts@.len(),
            forall|k: int| 0 <= k < pos ==> !goes_before(account@, #[trigger] accounts@[k]@),
        decreases accounts@.len() - pos,
    {
        if precedes(account, &accounts[pos]) {
            return pos;
        }
        pos += 1;
    }
    pos
}

/// Inserting an account at the place that [`insertion_point`] gives keeps the
/// listing order.
proof fn lemma_insert_in_order(s: Seq<AccountModel>, pos: int, x: AccountModel)
    requires
        in_listing_order(s),
        0 <= pos <= s.len(),
        forall|k: int| 0 <= k < pos ==> !goes_before(x, #[trigger] s[k]),
        pos < s.len() ==> goes_before(x, s[pos]),
    ensures
        in_listing_order(s.insert(pos, x)),
{
    let t = s.insert(pos, x);
    assert forall|i: int, j: int| 0 <= i < j < t.len() implies lex_le(
        #[trigger] t[j].name,
        #[trigger] t[i].name,
    ) by {
        if i < pos && j == pos {
            lemma_lex_total(x.name, s[i].name);
        } else if i == pos && j > pos {
            if j - 1 > pos {
                assert(lex_le(s[j - 1].name, s[pos].name));
                if s[j - 1].name != s[pos].name {
                    lemma_lex_trans(s[j - 1].name, s[pos].name, x.name);
                }
            }
        } else if i < pos && j > pos {
            assert(lex_le(s[j - 1].name, s[i].name));
        } else if j < pos {
            assert(lex_le(s[j].name, s[i].name));
        } else {
            assert(lex_le(s[j - 1].name, s[i - 1].name));
        }
    }
}

/// Inserting an element into a sequence adds it to the sequence's multiset.
proof fn lemma_insert_multiset<A>(s: Seq<A>, pos: int, x: A)
    requires
        0 <= pos <= s.len(),
    ensures
        s.insert(pos, x).to_multiset() =~= s.to_multiset().insert(x),
{
    broadcast use vstd::seq_lib::group_to_multiset_ensures;
    broadcast use vstd::multiset::group_multiset_axioms;

    let t = s.insert(pos, x);
    assert(t.remove(pos) =~= s);
    assert(t.contains(x)) by {
        assert(t[pos] == x);
    }
}

/// Two multisets that agree once a shared element is taken out of both are
/// equal.
proof fn lemma_multiset_remove_cancel<A>(m1: Multiset<A>, m2: Multiset<A>, x: A)
    requires
        m1.contains(x),
        m2.contains(x),
        m1.remove(x) == m2.remove(x),
    ensures
        m1 == m2,
{
    broadcast use vstd::multiset::group_multiset_axioms;

    assert forall|y: A| m1.count(y) == m2.count(y) by {
        assert(m1.remove(x).count(y) == m2.remove(x).count(y));
        assert(Multiset::singleton(x).count(y) == if x == y { 1nat } else { 0nat });
        assert(m1.sub(Multiset::singleton(x)).count(y) == m2.sub(Multiset::singleton(x)).count(y));
    }
    assert(m1 =~= m2);
}

/// Applying one function to the elements of two sequences with the same
/// multiset gives two sequences with the same multiset.
proof fn lemma_map_values_multiset<A, B>(s: Seq<A>, t: Seq<A>, f: spec_fn(A) -> B)
    requires
        s.to_multiset() == t.to_multiset(),
    ensures
        s.map_values(f).to_multiset() == t.map_values(f).to_multiset(),
    decreases s.len(),
{
    broadcast use vstd::seq_lib::group_to_multiset_ensures;
    broadcast use vstd::multiset::group_multiset_axioms;

    if s.len() == 0 {
        assert(t.to_multiset().len() == 0);
        assert(s.map_values(f) =~= t.map_values(f));
    } else {
        let x = s[0];
        assert(s.contains(x));
        assert(t.to_multiset().count(x) > 0);
        assert(t.contains(x));
        let j = choose|j: int| 0 <= j < t.len() && t[j] == x;
        assert(s.remove(0).to_multiset() == t.remove(j).to_multiset());
        lemma_map_values_multiset(s.remove(0), t.remove(j), f);
        let fs = s.map_values(f);
        let ft = t.map_values(f);
        assert(fs.remove(0) =~= s.remove(0).map_values(f));
        assert(ft.remove(j) =~= t.remove(j).map_values(f));
        assert(fs.remove(0).to_multiset() == fs.to_multiset().remove(f(x)));
        assert(ft.remove(j).to_multiset() == ft.to_multiset().remove(f(x)));
        assert(fs.contains(f(x))) by {
            assert(fs[0] == f(x));
        }
        assert(ft.contains(f(x))) by {
            assert(ft[j] == f(x));
        }
        lemma_multiset_remove_cancel(fs.to_multiset(), ft.to_multiset(), f(x));
    }
}

/// Two sequences in listing order with the same multiset, in which an
/// account is known by its name, are the same sequence.
proof fn lemma_listing_order_determines(r1: Seq<AccountModel>, r2: Seq<AccountModel>)
    requires
        in_listing_order(r1),
        in_listing_order(r2),
        r1.to_multiset() == r2.to_multiset(),
        known_by_name(r1.to_multiset()),
    ensures
        r1 == r2,
    decreases r1.len(),
{
    broadcast use vstd::seq_lib::group_to_multiset_ensures;
    broadcast use vstd::multiset::group_multiset_axioms;

    r1.to_multiset_ensures();
    r2.to_multiset_ensures();
    assert(r1.len() == r2.len());
    if r1.len() == 0 {
        assert(r1 =~= r2);
    } else {
        let m = r1.to_multiset();
        let x = r1[0];
        let y = r2[0];
        assert(r1.contains(x));
        assert(r2.contains(y));
        assert(m.contains(x));
        assert(m.contains(y));
        assert(r2.contains(x));
        assert(r1.contains(y));
        let j2 = choose|j: int| 0 <= j < r2.len() && r2[j] == x;
        let j1 = choose|j: int| 0 <= j < r1.len() && r1[j] == y;
        if j2 > 0 {
            assert(lex_le(r2[j2].name, r2[0].name));
        }
        if j1 > 0 {
            assert(lex_le(r1[j1].name, r1[0].name));
        }
        lemma_lex_total(x.name, y.name);
        assert(x == y);
        let d1 = r1.remove(0);
        let d2 = r2.remove(0);
        assert(d1.to_multiset() == m.remove(x));
        assert(d2.to_multiset() == m.remove(x));
        assert(in_listing_order(d1)) by {
            assert forall|i: int, j: int| 0 <= i < j < d1.len() implies lex_le(
                #[trigger] d1[j].name,
                #[trigger] d1[i].name,
            ) by {
                assert(lex_le(r1[j + 1].name, r1[i + 1].name));
            }
        }
        assert(in_listing_order(d2)) by {
            assert forall|i: int, j: int| 0 <= i < j < d2.len() implies lex_le(
                #[trigger] d2[j].name,
                #[trigger] d2[i].name,
            ) by {
                assert(lex_le(r2[j + 1].name, r2[i + 1].name));
            }
        }
        assert(known_by_name(d1.to_multiset())) by {
            assert forall|a: AccountModel, b: AccountModel|
                #[trigger] d1.to_multiset().contains(a) && #[trigger] d1.to_multiset().contains(b)
                    && a.name == b.name implies a == b by {
                assert(m.contains(a));
                assert(m.contains(b));
            }
        }
        lemma_listing_order_determines(d1, d2);
        assert(r1 =~= r2) by {
            assert forall|i: int| 0 <= i < r1.len() implies r1[i] == r2[i] by {
                if i > 0 {
                    assert(r1[i] == d1[i - 1]);
                    assert(r2[i] == d2[i - 1]);
                }
            }
        }
    }
}

/// Listing a mapping does not depend on the order in which its entries are
/// walked: two listings of the same entries, in any two orders, are the same
/// sequence, since the order is decided by the names alone.
pub proof fn lemma_listing_ignores_entry_order(
    entries1: Seq<(String, DeserializedAccountConfig)>,
    entries2: Seq<(String, DeserializedAccountConfig)>,
    listed1: Seq<AccountModel>,
    listed2: Seq<AccountModel>,
)
    requires
        unique_names(entries1),
        entry_models(entries1).to_multiset() == entry_models(entries2).to_multiset(),
        listed1.to_multiset() == projected(entries1).to_multiset(),
        in_listing_order(listed1),
        listed2.to_multiset() == projected(entries2).to_multiset(),
        in_listing_order(listed2),
    ensures
        listed1 == listed2,
{
    broadcast use vstd::seq_lib::group_to_multiset_ensures;

    let f = |p: (Seq<char>, DeserializedAccountConfig)| project(p.0, p.1);
    lemma_map_values_multiset(entry_models(entries1), entry_models(entries2), f);
    assert(entry_models(entries1).map_values(f) =~= projected(entries1));
    assert(entry_models(entries2).map_values(f) =~= projected(entries2));
    let p = projected(entries1);
    assert(known_by_name(listed1.to_multiset())) by {
        assert forall|a: AccountModel, b: AccountModel|
            #[trigger] listed1.to_multiset().contains(a) && #[trigger] listed1.to_multiset().contains(b)
                && a.name == b.name implies a == b by {
            assert(p.to_multiset().count(a) > 0);
            assert(p.to_multiset().count(b) > 0);
            assert(p.contains(a));
            assert(p.contains(b));
            let i = choose|i: int| 0 <= i < p.len() && p[i] == a;
            let j = choose|j: int| 0 <= j < p.len() && p[j] == b;
            assert(entries1[i].0@ == a.name);
            assert(entries1[j].0@ == b.name);
        }
    }
    lemma_listing_order_determines(listed1, listed2);
}

impl Accounts {
    /// Gathers the accounts of a configuration's account mapping, one per
    /// entry, and orders them by name from the greatest to the least.
    pub fn from_entries(entries: &Vec<(String, DeserializedAccountConfig)>) -> (r: Accounts)
        ensures
            r@.len() == entries@.len(),
            r@.to_multiset() == projected(entries@).to_multiset(),
            forall|k: int| 0 <= k < entries@.len() ==> r@.contains(project(#[trigger] entries@[k].0@, entries@[k].1)),
            forall|a: AccountModel| #[trigger] r@.contains(a) ==> projected(entries@).contains(a),
            in_listing_order(r@),
    {
        let mut accounts: Vec<Account> = Vec::new();
        let mut i: usize = 0;
        assert(models(accounts@) =~= projected(entries@.take(0)));
        while i < entries.len()
            invariant
                i <= entries@.len(),
                accounts@.len() == i,
                models(accounts@).to_multiset() == projected(entries@.take(i as int)).to_multiset(),
                in_listing_order(models(accounts@)),
            decreases entries@.len() - i,
        {
            let entry = &entries[i];
            let account = Account::from_config(entry.0.as_str(), &entry.1);
            let pos = insertion_point(&accounts, &account);
            proof {
                let s = models(accounts@);
                lemma_insert_in_order(s, pos as int, account@);
                lemma_insert_multiset(s, pos as int, account@);
                assert(models(accounts@.insert(pos as int, account)) =~= s.insert(pos as int, account@));
                assert(projected(entries@.take(i + 1)) =~= projected(entries@.take(i as int)).push(account@));
                vstd::seq_lib::to_multiset_build(projected(entries@.take(i as int)), account@);
            }
            accounts.insert(pos, account);
            i += 1;
        }
        assert(entries@.take(entries@.len() as int) =~= entries@);
        let r = Accounts(accounts);
        proof {
            broadcast use vstd::seq_lib::group_to_multiset_ensures;

            let p = projected(entries@);
            assert forall|k: int| 0 <= k < entries@.len() implies r@.contains(
                project(#[trigger] entries@[k].0@, entries@[k].1),
            ) by {
                assert(p[k] == project(entries@[k].0@, entries@[k].1));
                assert(p.contains(p[k]));
                assert(p.to_multiset().count(p[k]) > 0);
            }
            assert forall|a: AccountModel| #[trigger] r@.contains(a) implies p.contains(a) by {
                assert(r@.to_multiset().count(a) > 0);
            }
        }
        r
    }

    /// Renders the collection into `writer`: a blank line, then the table
    /// that `render` makes of the collection, then a blank line. An error of
    /// `render` is handed back as it is, after the leading blank line.
    pub fn print_table<E, F>(&self, writer: &mut String, render: F) -> (r: Result<(), E>)
        where
            F: FnOnce(&Accounts) -> Result<String, E>,
        requires
            render.requires((self,)),
        ensures
            match r {
                Ok(()) => exists|table: String|
                    render.ensures((self,), Ok(table)) && final(writer)@ == old(writer)@ + seq!['\n'] + table@ + seq!['\n'],
                Err(e) => render.ensures((self,), Err(e)) && final(writer)@ == old(writer)@ + seq!['\n'],
            },
    {
        let ghost start = writer@;
        proof {
            reveal_strlit("\n");
        }
        writer.append("\n");
        let rendered = render(self);
        match rendered {
            Ok(table) => {
                writer.append(table.as_str());
                writer.append("\n");
                assert(writer@ =~= start + seq!['\n'] + table@ + seq!['\n']);
                assert(render.ensures((self,), Ok(table)));
                Ok(())
            },
            Err(e) => Err(e),
        }
    }
}

impl std::ops::Deref for Accounts {
    type Target = Vec<Account>;

    fn deref(&self) -> (r: &Vec<Account>)
        ensures
            r == &self.0,
    {
        &self.0
    }
}

} // verus!
