//! The bang table, and how it is read from a configuration document.

use vstd::prelude::*;

verus! {

/// The text that an error carries about where it was found.
pub type Context = String;

/// What is wrong with a configuration entry.
#[derive(Debug)]
pub enum Kind {
    Missing(Context),
    WrongType(Context),
    InvalidValue(Context),
}

/// Why a configuration does not give a bang table, and at which entry.
#[derive(Debug)]
pub enum ParseErr {
    DefaultBang(Kind),
    Bangs(Kind),
    Bang(Kind),
    Query(Kind),
    Aliases(Kind),
    Alias(Kind),
}

/// A configuration value: what it holds, and its text as the configuration
/// format writes it.
#[derive(Debug)]
pub struct ConfigValue {
    pub text: String,
    pub data: ValueData,
}

/// What a configuration value holds, as far as the bang table reads it.
#[derive(Debug)]
pub enum ValueData {
    Str(String),
    Array(Vec<ConfigValue>),
    Table(ConfigTable),
    Other,
}

/// A configuration table: its keys with their values, in order.
#[derive(Debug)]
pub struct ConfigTable {
    pub entries: Vec<(String, ConfigValue)>,
}

/// The model of a [`Kind`].
pub enum KindModel {
    Missing(Seq<char>),
    WrongType(Seq<char>),
    InvalidValue(Seq<char>),
}

/// The model of a [`ParseErr`].
pub enum ParseFault {
    DefaultBang(KindModel),
    Bangs(KindModel),
    Bang(KindModel),
    Query(KindModel),
    Aliases(KindModel),
    Alias(KindModel),
}

impl View for Kind {
    type V = KindModel;

    open spec fn view(&self) -> KindModel {
        match self {
            Kind::Missing(c) => KindModel::Missing(c@),
            Kind::WrongType(c) => KindModel::WrongType(c@),
            Kind::InvalidValue(c) => KindModel::InvalidValue(c@),
        }
    }
}

impl View for ParseErr {
    type V = ParseFault;

    open spec fn view(&self) -> ParseFault {
        match self {
            ParseErr::DefaultBang(k) => ParseFault::DefaultBang(k@),
            ParseErr::Bangs(k) => ParseFault::Bangs(k@),
            ParseErr::Bang(k) => ParseFault::Bang(k@),
            ParseErr::Query(k) => ParseFault::Query(k@),
            ParseErr::Aliases(k) => ParseFault::Aliases(k@),
            ParseErr::Alias(k) => ParseFault::Alias(k@),
        }
    }
}

/// The bang table: each alias with its query template, and the alias used
/// when a query names none.
#[derive(Debug)]
pub struct BangStorage {
    pub bangs: Vec<(String, String)>,
    pub default: String,
}

/// The aliases and templates as pairs of character sequences.
pub open spec fn bang_views(bangs: Seq<(String, String)>) -> Seq<(Seq<char>, Seq<char>)> {
    bangs.map_values(|b: (String, String)| (b.0@, b.1@))
}

/// The template of the first entry for `alias`.
pub open spec fn lookup(bangs: Seq<(Seq<char>, Seq<char>)>, alias: Seq<char>) -> Option<Seq<char>>
    decreases bangs.len(),
{
    if bangs.len() == 0 {
        None
    } else if bangs[0].0 == alias {
        Some(bangs[0].1)
    } else {
        lookup(bangs.skip(1), alias)
    }
}

/// No alias stands twice.
pub open spec fn unique_aliases(bangs: Seq<(Seq<char>, Seq<char>)>) -> bool {
    forall|i: int, j: int|
        0 <= i < j < bangs.len() ==> #[trigger] bangs[i].0 != #[trigger] bangs[j].0
}

impl BangStorage {
    /// Binds `alias` to `template`, replacing an earlier binding of the alias.
    fn put(bangs: &mut Vec<(String, String)>, alias: String, template: String)
        ensures
            bang_views(final(bangs)@) == put_alias(bang_views(old(bangs)@), alias@, template@),
    {
        let ghost m = bang_views(bangs@);
        let mut i: usize = 0;
        assert(m.skip(0) =~= m);
        assert(m.take(0) =~= Seq::<(Seq<char>, Seq<char>)>::empty());
        while i < bangs.len()
            invariant
                i <= bangs@.len(),
                m == bang_views(bangs@),
                bangs@ == old(bangs)@,
                put_alias(m, alias@, template@) == m.take(i as int) + put_alias(m.skip(i as int), alias@, template@),
            decreases bangs@.len() - i,
        {
            assert(m.skip(i as int)[0] == m[i as int]);
            if bangs[i].0 == alias {
                bangs.set(i, (alias, template));
                assert(bang_views(bangs@) =~= m.take(i as int) + m.skip(i as int).update(0, (alias@, template@)));
                return;
            }
            assert(m.skip(i as int).skip(1) =~= m.skip(i + 1));
            assert(m.take(i + 1) =~= m.take(i as int) + seq![m[i as int]]);
            i = i + 1;
        }
        let ghost a = alias@;
        let ghost t = template@;
        bangs.push((alias, template));
        assert(m.take(i as int) =~= m);
        assert(bang_views(bangs@) =~= m + seq![(a, t)]);
    }

    /// Binds each alias of `items` to `template`.
    fn put_aliases(bangs: &mut Vec<(String, String)>, items: &Vec<ConfigValue>, template: &String) -> (r: Result<(), ParseErr>)
        ensures
            match r {
                Ok(()) => aliases_spec(bang_views(old(bangs)@), items@, template@) == Ok::<Seq<(Seq<char>, Seq<char>)>, ParseFault>(bang_views(final(bangs)@)),
                Err(e) => aliases_spec(bang_views(old(bangs)@), items@, template@) == Err::<Seq<(Seq<char>, Seq<char>)>, ParseFault>(e@),
            },
    {
        let ghost m0 = bang_views(bangs@);
        let mut i: usize = 0;
        assert(items@.take(0) =~= Seq::<ConfigValue>::empty());
        while i < items.len()
            invariant
                i <= items@.len(),
                aliases_spec(m0, items@.take(i as int), template@) == Ok::<Seq<(Seq<char>, Seq<char>)>, ParseFault>(bang_views(bangs@)),
                m0 == bang_views(old(bangs)@),
            decreases items@.len() - i,
        {
            assert(items@.take(i + 1).drop_last() =~= items@.take(i as int));
            let item = &items[i];
            match &item.data {
                ValueData::Str(a) => {
                    BangStorage::put(bangs, a.clone(), template.clone());
                },
                _ => {
                    proof {
                        lemma_aliases_err_prefix(m0, items@, i + 1, template@);
                    }
                    return Err(ParseErr::Alias(Kind::WrongType(item.text.clone())));
                },
            }
            i = i + 1;
        }
        assert(items@.take(i as int) =~= items@);
        Ok(())
    }

    /// Reads one bang entry into the table.
    fn read_entry(bangs: &mut Vec<(String, String)>, entry: &ConfigValue) -> (r: Result<(), ParseErr>)
        ensures
            match r {
                Ok(()) => entry_spec(bang_views(old(bangs)@), *entry) == Ok::<Seq<(Seq<char>, Seq<char>)>, ParseFault>(bang_views(final(bangs)@)),
                Err(e) => entry_spec(bang_views(old(bangs)@), *entry) == Err::<Seq<(Seq<char>, Seq<char>)>, ParseFault>(e@),
            },
    {
        let table = match &entry.data {
            ValueData::Table(t) => t,
            _ => {
                return Err(ParseErr::Bang(Kind::WrongType(entry.text.clone())));
            },
        };
        let query_value = match get_value(table, "query") {
            Some(v) => v,
            None => {
                return Err(ParseErr::Query(Kind::Missing(entry.text.clone())));
            },
        };
        let query = match &query_value.data {
            ValueData::Str(q) => q,
            _ => {
                return Err(ParseErr::Query(Kind::WrongType(query_value.text.clone())));
            },
        };
        let aliases_value = match get_value(table, "aliases") {
            Some(v) => v,
            None => {
                return Err(ParseErr::Aliases(Kind::Missing(entry.text.clone())));
            },
        };
        let aliases = match &aliases_value.data {
            ValueData::Array(items) => items,
            _ => {
                return Err(ParseErr::Aliases(Kind::WrongType(aliases_value.text.clone())));
            },
        };
        if table.entries.len() != 2 {
            return Err(ParseErr::Bang(Kind::InvalidValue(entry.text.clone())));
        }
        BangStorage::put_aliases(bangs, aliases, query)
    }

    /// The bang table that a configuration describes.
    pub fn from_table(table: &ConfigTable) -> (r: Result<BangStorage, ParseErr>)
        ensures
            match r {
                Ok(s) => s.wf() && from_table_spec(*table) == Ok::<(Seq<(Seq<char>, Seq<char>)>, Seq<char>), ParseFault>((s.table(), s.default@)),
                Err(e) => from_table_spec(*table) == Err::<(Seq<(Seq<char>, Seq<char>)>, Seq<char>), ParseFault>(e@),
            },
    {
        let mut alias_map: Vec<(String, String)> = Vec::new();
        let bangs_value = match get_value(table, "bangs") {
            Some(v) => v,
            None => {
                return Err(ParseErr::Bangs(Kind::Missing(String::new())));
            },
        };
        let bang_entries = match &bangs_value.data {
            ValueData::Array(items) => items,
            _ => {
                return Err(ParseErr::Bangs(Kind::WrongType(bangs_value.text.clone())));
            },
        };
        let mut i: usize = 0;
        assert(bang_entries@.take(0) =~= Seq::<ConfigValue>::empty());
        assert(bang_views(alias_map@) =~= Seq::<(Seq<char>, Seq<char>)>::empty());
        while i < bang_entries.len()
            invariant
                i <= bang_entries@.len(),
                bangs_spec(bang_entries@) matches Err(e) ==> from_table_spec(*table) == Err::<(Seq<(Seq<char>, Seq<char>)>, Seq<char>), ParseFault>(e),
                bangs_spec(bang_entries@.take(i as int)) == Ok::<Seq<(Seq<char>, Seq<char>)>, ParseFault>(bang_views(alias_map@)),
                unique_aliases(bang_views(alias_map@)),
            decreases bang_entries@.len() - i,
        {
            assert(bang_entries@.take(i + 1).drop_last() =~= bang_entries@.take(i as int));
            let ghost before = bang_views(alias_map@);
            match BangStorage::read_entry(&mut alias_map, &bang_entries[i]) {
                Ok(()) => {},
                Err(e) => {
                    proof {
                        lemma_bangs_err_prefix(bang_entries@, i + 1);
                    }
                    return Err(e);
                },
            }
            proof {
                lemma_entry_unique(before, bang_entries@[i as int]);
            }
            i = i + 1;
        }
        assert(bang_entries@.take(i as int) =~= bang_entries@);
        let default_value = match get_value(table, "default") {
            Some(v) => v,
            None => {
                return Err(ParseErr::DefaultBang(Kind::Missing(String::new())));
            },
        };
        let default = match &default_value.data {
            ValueData::Str(d) => d.clone(),
            _ => {
                return Err(ParseErr::DefaultBang(Kind::WrongType(default_value.text.clone())));
            },
        };
        let storage = BangStorage { bangs: alias_map, default: default };
        if storage.template(&storage.default).is_none() {
            return Err(ParseErr::DefaultBang(Kind::InvalidValue(storage.default)));
        }
        Ok(storage)
    }

    /// The aliases and templates of the table.
    pub open spec fn table(&self) -> Seq<(Seq<char>, Seq<char>)> {
        bang_views(self.bangs@)
    }

    /// Aliases are unique and the default alias is one of them.
    pub open spec fn wf(&self) -> bool {
        &&& unique_aliases(self.table())
        &&& lookup(self.table(), self.default@) is Some
    }

    /// The template of `alias`, if the table has it.
    pub fn template(&self, alias: &String) -> (r: Option<&String>)
        ensures
            match r {
                Some(t) => lookup(self.table(), alias@) == Some(t@),
                None => lookup(self.table(), alias@) is None,
            },
    {
        let ghost bs = self.table();
        let mut i: usize = 0;
        assert(bs.skip(0) =~= bs);
        while i < self.bangs.len()
            invariant
                i <= bs.len(),
                bs == self.table(),
                lookup(bs, alias@) == lookup(bs.skip(i as int), alias@),
            decreases bs.len() - i,
        {
            assert(bs.skip(i as int)[0] == bs[i as int]);
            if self.bangs[i].0 == *alias {
                return Some(&self.bangs[i].1);
            }
            assert(bs.skip(i as int).skip(1) =~= bs.skip(i + 1));
            i = i + 1;
        }
        None
    }
}

/// `prefix` followed by `ctx`.
fn with_context(prefix: &str, ctx: &String) -> (r: String)
    ensures
        r@ == prefix@ + ctx@,
{
    let mut r = prefix.to_owned();
    r.append(ctx.as_str());
    r
}

/// The text of an error about one configuration entry.
pub open spec fn kind_message(k: KindModel, missing: Seq<char>, wrong_type: Seq<char>, invalid: Seq<char>) -> Seq<char> {
    match k {
        KindModel::Missing(c) => missing + c,
        KindModel::WrongType(c) => wrong_type + c,
        KindModel::InvalidValue(c) => invalid + c,
    }
}

/// The text of a configuration error.
pub open spec fn parse_message(e: ParseFault) -> Seq<char> {
    match e {
        ParseFault::DefaultBang(k) => kind_message(k, "`default` is missing"@, "`default` is not a string: "@, "`default` is not a defined alias: "@),
        ParseFault::Bangs(k) => kind_message(k, "`bangs` is missing"@, "`bangs` is not an array: "@, "`bangs` has an invalid value: "@),
        ParseFault::Bang(k) => kind_message(k, "Bang entry is missing: "@, "Bang entry is not a table: "@, "Bang entry has excessive items: "@),
        ParseFault::Query(k) => kind_message(k, "`query` is missing from bang table: "@, "`query` is not a string: "@, "`query` has invalid format: "@),
        ParseFault::Aliases(k) => kind_message(k, "`aliases` is missing from bang table: "@, "`aliases` is not an array: "@, "`aliases` has an invalid value: "@),
        ParseFault::Alias(k) => kind_message(k, "Alias is missing: "@, "Alias is not a string: "@, "Alias has an invalid value: "@),
    }
}

impl Kind {
    fn message(&self, missing: &str, wrong_type: &str, invalid: &str) -> (r: String)
        ensures
            r@ == kind_message(self@, missing@, wrong_type@, invalid@),
    {
        match self {
            Kind::Missing(c) => with_context(missing, c),
            Kind::WrongType(c) => with_context(wrong_type, c),
            Kind::InvalidValue(c) => with_context(invalid, c),
        }
    }
}

impl ParseErr {
    /// What went wrong, for a person to read.
    pub fn message(&self) -> (r: String)
        ensures
            r@ == parse_message(self@),
    {
        match self {
            ParseErr::DefaultBang(k) => k.message("`default` is missing", "`default` is not a string: ", "`default` is not a defined alias: "),
            ParseErr::Bangs(k) => k.message("`bangs` is missing", "`bangs` is not an array: ", "`bangs` has an invalid value: "),
            ParseErr::Bang(k) => k.message("Bang entry is missing: ", "Bang entry is not a table: ", "Bang entry has excessive items: "),
            ParseErr::Query(k) => k.message("`query` is missing from bang table: ", "`query` is not a string: ", "`query` has invalid format: "),
            ParseErr::Aliases(k) => k.message("`aliases` is missing from bang table: ", "`aliases` is not an array: ", "`aliases` has an invalid value: "),
            ParseErr::Alias(k) => k.message("Alias is missing: ", "Alias is not a string: ", "Alias has an invalid value: "),
        }
    }
}

/// The value of the first entry of `key` in `t`.
pub fn get_value<'a>(t: &'a ConfigTable, key: &str) -> (r: Option<&'a ConfigValue>)
    ensures
        match r {
            Some(v) => key_value(t.entries@, key@) == Some(*v),
            None => key_value(t.entries@, key@) is None,
        },
{
    let k = key.to_owned();
    let ghost es = t.entries@;
    let mut i: usize = 0;
    assert(es.skip(0) =~= es);
    while i < t.entries.len()
        invariant
            i <= es.len(),
            es == t.entries@,
            k@ == key@,
            key_value(es, key@) == key_value(es.skip(i as int), key@),
        decreases es.len() - i,
    {
        assert(es.skip(i as int)[0] == es[i as int]);
        if t.entries[i].0 == k {
            return Some(&t.entries[i].1);
        }
        assert(es.skip(i as int).skip(1) =~= es.skip(i + 1));
        i = i + 1;
    }
    None
}

/// The listening address that a configuration gives, or why it gives none.
pub open spec fn address_spec(t: ConfigTable) -> Result<Seq<char>, Seq<char>> {
    match key_value(t.entries@, "address"@) {
        None => Err("Address is missing from config"@),
        Some(v) => match v.data {
            ValueData::Str(a) => Ok(a@),
            _ => Err("Address is not a string: "@ + v.text@),
        },
    }
}

/// The text of the `address` entry of a configuration.
pub fn get_address_from_config(table: &ConfigTable) -> (r: Result<String, String>)
    ensures
        match r {
            Ok(a) => address_spec(*table) == Ok::<Seq<char>, Seq<char>>(a@),
            Err(m) => address_spec(*table) == Err::<Seq<char>, Seq<char>>(m@),
        },
{
    let value = match get_value(table, "address") {
        Some(v) => v,
        None => {
            return Err("Address is missing from config".to_owned());
        },
    };
    match &value.data {
        ValueData::Str(a) => Ok(a.clone()),
        _ => Err(with_context("Address is not a string: ", &value.text)),
    }
}

/// The value of the first entry of `key`.
pub open spec fn key_value(entries: Seq<(String, ConfigValue)>, key: Seq<char>) -> Option<ConfigValue>
    decreases entries.len(),
{
    if entries.len() == 0 {
        None
    } else if entries[0].0@ == key {
        Some(entries[0].1)
    } else {
        key_value(entries.skip(1), key)
    }
}

/// The table with `alias` bound to `template`: an earlier entry of the alias
/// takes the new template, or the entry is added at the end.
pub open spec fn put_alias(m: Seq<(Seq<char>, Seq<char>)>, alias: Seq<char>, template: Seq<char>) -> Seq<(Seq<char>, Seq<char>)>
    decreases m.len(),
{
    if m.len() == 0 {
        seq![(alias, template)]
    } else if m[0].0 == alias {
        m.update(0, (alias, template))
    } else {
        seq![m[0]] + put_alias(m.skip(1), alias, template)
    }
}

/// The table after binding each alias of `items` to `template`, or the
/// first alias that is not a string.
pub open spec fn aliases_spec(m: Seq<(Seq<char>, Seq<char>)>, items: Seq<ConfigValue>, template: Seq<char>) -> Result<Seq<(Seq<char>, Seq<char>)>, ParseFault>
    decreases items.len(),
{
    if items.len() == 0 {
        Ok(m)
    } else {
        match aliases_spec(m, items.drop_last(), template) {
            Err(e) => Err(e),
            Ok(m2) => match items.last().data {
                ValueData::Str(a) => Ok(put_alias(m2, a@, template)),
                _ => Err(ParseFault::Alias(KindModel::WrongType(items.last().text@))),
            },
        }
    }
}

/// The table after reading one bang entry: a table with exactly a `query`
/// string and an `aliases` array of strings.
pub open spec fn entry_spec(m: Seq<(Seq<char>, Seq<char>)>, v: ConfigValue) -> Result<Seq<(Seq<char>, Seq<char>)>, ParseFault> {
    match v.data {
        ValueData::Table(t) => match key_value(t.entries@, "query"@) {
            None => Err(ParseFault::Query(KindModel::Missing(v.text@))),
            Some(q) => match q.data {
                ValueData::Str(template) => match key_value(t.entries@, "aliases"@) {
                    None => Err(ParseFault::Aliases(KindModel::Missing(v.text@))),
                    Some(a) => match a.data {
                        ValueData::Array(items) => if t.entries@.len() != 2 {
                            Err(ParseFault::Bang(KindModel::InvalidValue(v.text@)))
                        } else {
                            aliases_spec(m, items@, template@)
                        },
                        _ => Err(ParseFault::Aliases(KindModel::WrongType(a.text@))),
                    },
                },
                _ => Err(ParseFault::Query(KindModel::WrongType(q.text@))),
            },
        },
        _ => Err(ParseFault::Bang(KindModel::WrongType(v.text@))),
    }
}

/// The table after reading the bang entries in order, or the first error.
pub open spec fn bangs_spec(entries: Seq<ConfigValue>) -> Result<Seq<(Seq<char>, Seq<char>)>, ParseFault>
    decreases entries.len(),
{
    if entries.len() == 0 {
        Ok(Seq::empty())
    } else {
        match bangs_spec(entries.drop_last()) {
            Err(e) => Err(e),
            Ok(m) => entry_spec(m, entries.last()),
        }
    }
}

/// The bang table and default alias that a configuration gives, or the
/// first error found in it.
pub open spec fn from_table_spec(t: ConfigTable) -> Result<(Seq<(Seq<char>, Seq<char>)>, Seq<char>), ParseFault> {
    match key_value(t.entries@, "bangs"@) {
        None => Err(ParseFault::Bangs(KindModel::Missing(Seq::empty()))),
        Some(b) => match b.data {
            ValueData::Array(items) => match bangs_spec(items@) {
                Err(e) => Err(e),
                Ok(m) => match key_value(t.entries@, "default"@) {
                    None => Err(ParseFault::DefaultBang(KindModel::Missing(Seq::empty()))),
                    Some(d) => match d.data {
                        ValueData::Str(name) => if lookup(m, name@) is Some {
                            Ok((m, name@))
                        } else {
                            Err(ParseFault::DefaultBang(KindModel::InvalidValue(name@)))
                        },
                        _ => Err(ParseFault::DefaultBang(KindModel::WrongType(d.text@))),
                    },
                },
            },
            _ => Err(ParseFault::Bangs(KindModel::WrongType(b.text@))),
        },
    }
}

proof fn lemma_aliases_err_prefix(m: Seq<(Seq<char>, Seq<char>)>, items: Seq<ConfigValue>, k: int, template: Seq<char>)
    requires
        0 <= k <= items.len(),
        aliases_spec(m, items.take(k), template) is Err,
    ensures
        aliases_spec(m, items, template) == aliases_spec(m, items.take(k), template),
    decreases items.len(),
{
    if k == items.len() {
        assert(items.take(k) =~= items);
    } else {
        assert(items.drop_last().take(k) =~= items.take(k));
        lemma_aliases_err_prefix(m, items.drop_last(), k, template);
    }
}

proof fn lemma_bangs_err_prefix(entries: Seq<ConfigValue>, k: int)
    requires
        0 <= k <= entries.len(),
        bangs_spec(entries.take(k)) is Err,
    ensures
        bangs_spec(entries) == bangs_spec(entries.take(k)),
    decreases entries.len(),
{
    if k == entries.len() {
        assert(entries.take(k) =~= entries);
    } else {
        assert(entries.drop_last().take(k) =~= entries.take(k));
        lemma_bangs_err_prefix(entries.drop_last(), k);
    }
}

proof fn lemma_aliases_unique(m: Seq<(Seq<char>, Seq<char>)>, items: Seq<ConfigValue>, template: Seq<char>)
    requires
        unique_aliases(m),
    ensures
        aliases_spec(m, items, template) matches Ok(m2) ==> unique_aliases(m2),
    decreases items.len(),
{
    if items.len() > 0 {
        lemma_aliases_unique(m, items.drop_last(), template);
        match aliases_spec(m, items.drop_last(), template) {
            Ok(m2) => match items.last().data {
                ValueData::Str(a) => lemma_put_alias_unique(m2, a@, template),
                _ => {},
            },
            Err(_) => {},
        }
    }
}

proof fn lemma_entry_unique(m: Seq<(Seq<char>, Seq<char>)>, v: ConfigValue)
    requires
        unique_aliases(m),
    ensures
        entry_spec(m, v) matches Ok(m2) ==> unique_aliases(m2),
{
    match v.data {
        ValueData::Table(t) => match key_value(t.entries@, "query"@) {
            Some(q) => match q.data {
                ValueData::Str(template) => match key_value(t.entries@, "aliases"@) {
                    Some(a) => match a.data {
                        ValueData::Array(items) => lemma_aliases_unique(m, items@, template@),
                        _ => {},
                    },
                    None => {},
                },
                _ => {},
            },
            None => {},
        },
        _ => {},
    }
}

proof fn lemma_put_alias_unique(m: Seq<(Seq<char>, Seq<char>)>, alias: Seq<char>, template: Seq<char>)
    requires
        unique_aliases(m),
    ensures
        unique_aliases(put_alias(m, alias, template)),
        forall|k: Seq<char>| #[trigger] lookup(put_alias(m, alias, template), k) is Some <==> (k == alias || lookup(m, k) is Some),
    decreases m.len(),
{
    if m.len() > 0 && m[0].0 != alias {
        let rest = m.skip(1);
        assert forall|i: int, j: int| 0 <= i < j < rest.len() implies #[trigger] rest[i].0 != #[trigger] rest[j].0 by {
            assert(rest[i] == m[i + 1] && rest[j] == m[j + 1]);
        }
        lemma_put_alias_unique(rest, alias, template);
        let p = put_alias(rest, alias, template);
        let r = seq![m[0]] + p;
        lemma_lookup_in(m[0], p);
        lemma_lookup_in(m[0], rest);
        assert(m =~= seq![m[0]] + rest);
        assert(put_alias(m, alias, template) == r);
        assert forall|k: Seq<char>| #[trigger] lookup(r, k) is Some <==> (k == alias || lookup(m, k) is Some) by {
            assert(lookup(r, k) is Some <==> (k == m[0].0 || lookup(p, k) is Some));
            assert(lookup(p, k) is Some <==> (k == alias || lookup(rest, k) is Some));
            assert(lookup(m, k) is Some <==> (k == m[0].0 || lookup(rest, k) is Some));
        }
        assert forall|i: int, j: int| 0 <= i < j < r.len() implies #[trigger] r[i].0 != #[trigger] r[j].0 by {
            if i == 0 {
                assert(r[j] == p[j - 1]);
                lemma_lookup_found(p, j - 1);
                if p[j - 1].0 == m[0].0 {
                    // m[0]'s alias is neither `alias` nor in the rest of `m`
                    lemma_lookup_absent_rest(m);
                }
            }
        }
    } else if m.len() == 0 {
        let r = seq![(alias, template)];
        assert(r.skip(1) =~= Seq::<(Seq<char>, Seq<char>)>::empty());
        assert forall|k: Seq<char>| #[trigger] lookup(r, k) is Some <==> (k == alias || lookup(m, k) is Some) by {
            assert(lookup(r.skip(1), k) is None);
            assert(lookup(m, k) is None);
        }
    } else {
        let r = m.update(0, (alias, template));
        assert(r =~= seq![(alias, template)] + m.skip(1));
        assert(m =~= seq![m[0]] + m.skip(1));
        lemma_lookup_in((alias, template), m.skip(1));
        lemma_lookup_in(m[0], m.skip(1));
        assert(put_alias(m, alias, template) == r);
        assert forall|k: Seq<char>| #[trigger] lookup(r, k) is Some <==> (k == alias || lookup(m, k) is Some) by {
            assert(lookup(r, k) is Some <==> (k == alias || lookup(m.skip(1), k) is Some));
            assert(lookup(m, k) is Some <==> (k == m[0].0 || lookup(m.skip(1), k) is Some));
        }
        assert forall|i: int, j: int| 0 <= i < j < r.len() implies #[trigger] r[i].0 != #[trigger] r[j].0 by {
            assert(r[j] == m[j]);
            if i > 0 {
                assert(r[i] == m[i]);
            }
        }
    }
}

/// An entry is found by its alias.
proof fn lemma_lookup_found(m: Seq<(Seq<char>, Seq<char>)>, i: int)
    requires
        0 <= i < m.len(),
    ensures
        lookup(m, m[i].0) is Some,
    decreases m.len(),
{
    if i > 0 && m[0].0 != m[i].0 {
        assert(m.skip(1)[i - 1] == m[i]);
        lemma_lookup_found(m.skip(1), i - 1);
    }
}

proof fn lemma_lookup_in(first: (Seq<char>, Seq<char>), p: Seq<(Seq<char>, Seq<char>)>)
    ensures
        forall|k: Seq<char>| #[trigger] lookup(seq![first] + p, k) is Some <==> (k == first.0 || lookup(p, k) is Some),
{
    assert forall|k: Seq<char>| #[trigger] lookup(seq![first] + p, k) is Some <==> (k == first.0 || lookup(p, k) is Some) by {
        assert((seq![first] + p)[0] == first);
        assert((seq![first] + p).skip(1) =~= p);
    }
}

/// In a table of unique aliases, the first alias is not found in the rest.
proof fn lemma_lookup_absent_rest(m: Seq<(Seq<char>, Seq<char>)>)
    requires
        m.len() > 0,
        unique_aliases(m),
    ensures
        lookup(m.skip(1), m[0].0) is None,
{
    lemma_lookup_absent(m.skip(1), m[0].0);
    assert forall|i: int| 0 <= i < m.skip(1).len() implies #[trigger] m.skip(1)[i].0 != m[0].0 by {
        assert(m.skip(1)[i] == m[i + 1]);
    }
}

proof fn lemma_lookup_absent(m: Seq<(Seq<char>, Seq<char>)>, k: Seq<char>)
    ensures
        (forall|i: int| 0 <= i < m.len() ==> #[trigger] m[i].0 != k) ==> lookup(m, k) is None,
    decreases m.len(),
{
    if m.len() > 0 {
        lemma_lookup_absent(m.skip(1), k);
        if forall|i: int| 0 <= i < m.len() ==> #[trigger] m[i].0 != k {
            assert(m[0].0 != k);
            assert forall|i: int| 0 <= i < m.skip(1).len() implies #[trigger] m.skip(1)[i].0 != k by {
                assert(m.skip(1)[i] == m[i + 1]);
            }
        }
    }
}

} // verus!
