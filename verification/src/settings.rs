//! Settings store: a string key-value table with upsert semantics,
//! and the typed view of it the rest of the application reads.

use vstd::pervasive::VecAdditionalExecFns;
use vstd::prelude::*;

use crate::inventory::same_catalog;
use crate::inventory::same_sales;
use crate::inventory::same_users;
use crate::store::Setting;
use crate::store::SettingV;
use crate::store::Store;
use crate::StoreError;

verus! {

/// The configurable knobs of the store, with their defaults filled
/// in where the table holds no row.
pub struct StoreSettings {
    pub store_name: String,
    pub store_address: String,
    pub store_phone: String,
    pub store_email: String,
    pub receipt_header: String,
    pub receipt_footer: String,
    pub show_logo: bool,
    pub backup_frequency: String,
    pub printer_model: String,
}

/// Does the table hold a row under `key`?
pub open spec fn has_key(settings: Seq<SettingV>, key: Seq<char>) -> bool {
    exists|i: int| 0 <= i < settings.len() && settings[i].key == key
}

/// Index of the row under `key`; single-valued where keys are unique.
pub open spec fn key_index(settings: Seq<SettingV>, key: Seq<char>) -> int {
    choose|i: int| 0 <= i < settings.len() && settings[i].key == key
}

/// The value stored under `key`, or `default` where none is.
pub open spec fn settings_get(settings: Seq<SettingV>, key: Seq<char>, default: Seq<char>) -> Seq<
    char,
> {
    if has_key(settings, key) {
        settings[key_index(settings, key)].value
    } else {
        default
    }
}

/// The nine keys the typed settings view reads and writes.
pub open spec fn is_settings_key(k: Seq<char>) -> bool {
    ||| k == "store_name"@
    ||| k == "store_address"@
    ||| k == "store_phone"@
    ||| k == "store_email"@
    ||| k == "receipt_header"@
    ||| k == "receipt_footer"@
    ||| k == "show_logo"@
    ||| k == "backup_frequency"@
    ||| k == "printer_model"@
}

/// The nine keys are pairwise distinct: most differ in length, and
/// the three same-length pairs differ in a character.
pub proof fn lemma_settings_keys_distinct()
    ensures
        "store_name"@.len() == 10,
        "store_address"@.len() == 13,
        "store_phone"@.len() == 11,
        "store_email"@.len() == 11,
        "receipt_header"@.len() == 14,
        "receipt_footer"@.len() == 14,
        "show_logo"@.len() == 9,
        "backup_frequency"@.len() == 16,
        "printer_model"@.len() == 13,
        "store_phone"@ != "store_email"@,
        "receipt_header"@ != "receipt_footer"@,
        "store_address"@ != "printer_model"@,
{
    reveal_strlit("store_name");
    reveal_strlit("store_address");
    reveal_strlit("store_phone");
    reveal_strlit("store_email");
    reveal_strlit("receipt_header");
    reveal_strlit("receipt_footer");
    reveal_strlit("show_logo");
    reveal_strlit("backup_frequency");
    reveal_strlit("printer_model");
    assert("store_phone"@[6] != "store_email"@[6]);
    assert("receipt_header"@[8] != "receipt_footer"@[8]);
    assert("store_address"@[0] != "printer_model"@[0]);
}

impl Store {
    /// The value stored under `key`, or `default` where none is.
    #[verifier::loop_isolation(false)]
    fn get_setting(&self, key: &str, default: &str) -> (r: String)
        requires
            self.wf(),
        ensures
            r@ == settings_get(self@.settings, key@, default@),
    {
        let k = key.to_owned();
        let mut i: usize = 0;
        while i < self.settings.len()
            invariant
                i <= self@.settings.len(),
                forall|t: int| 0 <= t < i ==> #[trigger] self@.settings[t].key != key@,
            decreases self@.settings.len() - i,
        {
            if self.settings[i].key == k {
                proof {
                    let c = key_index(self@.settings, key@);
                    assert(self@.settings[i as int].key == key@);
                    assert(has_key(self@.settings, key@));
                    assert(0 <= c < self@.settings.len() && self@.settings[c].key == key@);
                    assert(c == i as int);
                }
                return self.settings[i].value.clone();
            }
            i = i + 1;
        }
        assert(!has_key(self@.settings, key@));
        default.to_owned()
    }

    /// Write `value` under `key`, inserting the row or overwriting
    /// the one already there, and leaving every other key alone.
    #[verifier::loop_isolation(false)]
    fn set_setting(&mut self, key: &str, value: &str)
        requires
            old(self).wf(),
        ensures
            final(self).wf(),
            has_key(final(self)@.settings, key@),
            forall|d: Seq<char>| #[trigger] settings_get(final(self)@.settings, key@, d)
                == value@,
            forall|k2: Seq<char>, d: Seq<char>|
                k2 != key@ ==> #[trigger] settings_get(final(self)@.settings, k2, d)
                    == settings_get(old(self)@.settings, k2, d),
            forall|k2: Seq<char>|
                k2 != key@ ==> #[trigger] has_key(final(self)@.settings, k2) == has_key(
                    old(self)@.settings,
                    k2,
                ),
            same_catalog(old(self)@, final(self)@),
            same_sales(old(self)@, final(self)@),
            same_users(old(self)@, final(self)@),
    {
        let k = key.to_owned();
        let row = Setting { key: k, value: value.to_owned() };
        let mut i: usize = 0;
        let mut found: Option<usize> = None;
        while i < self.settings.len()
            invariant
                i <= self@.settings.len(),
                match found {
                    Some(t) => t < self@.settings.len() && self@.settings[t as int].key == key@,
                    None => forall|t: int| 0 <= t < i ==> #[trigger] self@.settings[t].key != key@,
                },
            decreases self@.settings.len() - i,
        {
            if found.is_none() && self.settings[i].key == row.key {
                found = Some(i);
            }
            i = i + 1;
        }
        match found {
            Some(t) => {
                self.settings.set(t, row);
                proof {
                    assert(self@.sales == old(self)@.sales);
                    assert(self@.sale_items == old(self)@.sale_items);
                    assert(self@.products == old(self)@.products);
                    assert(self@.users == old(self)@.users);
                    let ns = self@.settings;
                    let os = old(self)@.settings;
                    assert(ns =~= os.update(
                        t as int,
                        (SettingV { key: key@, value: value@ }),
                    ));
                    assert(os[t as int].key == key@);
                    assert forall|a: int| 0 <= a < ns.len() implies #[trigger] ns[a].key
                        == os[a].key by {
                        if a != t as int {
                            assert(ns[a] == os[a]);
                        }
                    }
                    lemma_upsert_preserves(os, ns, key@, value@, t as int);
                }
            },
            None => {
                assert(!has_key(self@.settings, key@));
                self.settings.push(row);
                proof {
                    assert(self@.sales == old(self)@.sales);
                    assert(self@.sale_items == old(self)@.sale_items);
                    assert(self@.products == old(self)@.products);
                    assert(self@.users == old(self)@.users);
                    let ns = self@.settings;
                    let os = old(self)@.settings;
                    assert(ns =~= os.push((SettingV { key: key@, value: value@ })));
                    assert forall|a: int, b: int| 0 <= a < b < ns.len() implies #[trigger] ns[a].key
                        != #[trigger] ns[b].key by {
                        assert(ns[a] == os[a]);
                        if b < os.len() {
                            assert(ns[b] == os[b]);
                        } else {
                            assert(ns[b].key == key@);
                            assert(os[a].key != key@);
                        }
                    }
                    lemma_insert_preserves(os, ns, key@, value@);
                }
            },
        }
    }

    /// The typed settings view, with a default for every missing row.
    pub fn load_settings(&self) -> (r: StoreSettings)
        requires
            self.wf(),
        ensures
            r.store_name@ == settings_get(
                self@.settings,
                "store_name"@,
                "Your Fabulous Store Name"@,
            ),
            r.store_address@ == settings_get(
                self@.settings,
                "store_address"@,
                "123 Slay Street, City, Country"@,
            ),
            r.store_phone@ == settings_get(self@.settings, "store_phone"@, "+123 456 7890"@),
            r.store_email@ == settings_get(
                self@.settings,
                "store_email"@,
                "contact@yourstore.com"@,
            ),
            r.receipt_header@ == settings_get(
                self@.settings,
                "receipt_header"@,
                "Thank you for your purchase!"@,
            ),
            r.receipt_footer@ == settings_get(
                self@.settings,
                "receipt_footer"@,
                "Visit us again soon!"@,
            ),
            r.show_logo == (settings_get(self@.settings, "show_logo"@, "true"@) == "true"@),
            r.backup_frequency@ == settings_get(self@.settings, "backup_frequency"@, "daily"@),
            r.printer_model@ == settings_get(
                self@.settings,
                "printer_model"@,
                "Epson TM-T88VI"@,
            ),
    {
        let logo = self.get_setting("show_logo", "true");
        let yes = "true".to_owned();
        StoreSettings {
            store_name: self.get_setting("store_name", "Your Fabulous Store Name"),
            store_address: self.get_setting("store_address", "123 Slay Street, City, Country"),
            store_phone: self.get_setting("store_phone", "+123 456 7890"),
            store_email: self.get_setting("store_email", "contact@yourstore.com"),
            receipt_header: self.get_setting("receipt_header", "Thank you for your purchase!"),
            receipt_footer: self.get_setting("receipt_footer", "Visit us again soon!"),
            show_logo: logo == yes,
            backup_frequency: self.get_setting("backup_frequency", "daily"),
            printer_model: self.get_setting("printer_model", "Epson TM-T88VI"),
        }
    }

    /// Persist every field of the typed view under its key.
    pub fn save_settings(&mut self, settings: StoreSettings) -> (r: Result<(), StoreError>)
        requires
            old(self).wf(),
        ensures
            final(self).wf(),
            r == Ok::<(), StoreError>(()),
            forall|d: Seq<char>| #[trigger] settings_get(final(self)@.settings, "store_name"@, d)
                == settings.store_name@,
            forall|d: Seq<char>| #[trigger] settings_get(
                final(self)@.settings,
                "store_address"@,
                d,
            ) == settings.store_address@,
            forall|d: Seq<char>| #[trigger] settings_get(
                final(self)@.settings,
                "store_phone"@,
                d,
            ) == settings.store_phone@,
            forall|d: Seq<char>| #[trigger] settings_get(
                final(self)@.settings,
                "store_email"@,
                d,
            ) == settings.store_email@,
            forall|d: Seq<char>| #[trigger] settings_get(
                final(self)@.settings,
                "receipt_header"@,
                d,
            ) == settings.receipt_header@,
            forall|d: Seq<char>| #[trigger] settings_get(
                final(self)@.settings,
                "receipt_footer"@,
                d,
            ) == settings.receipt_footer@,
            forall|d: Seq<char>| #[trigger] settings_get(final(self)@.settings, "show_logo"@, d)
                == if settings.show_logo {
                    "true"@
                } else {
                    "false"@
                },
            forall|d: Seq<char>| #[trigger] settings_get(
                final(self)@.settings,
                "backup_frequency"@,
                d,
            ) == settings.backup_frequency@,
            forall|d: Seq<char>| #[trigger] settings_get(
                final(self)@.settings,
                "printer_model"@,
                d,
            ) == settings.printer_model@,
            forall|k2: Seq<char>, d: Seq<char>|
                !is_settings_key(k2) ==> #[trigger] settings_get(final(self)@.settings, k2, d)
                    == settings_get(old(self)@.settings, k2, d),
            same_catalog(old(self)@, final(self)@),
            same_sales(old(self)@, final(self)@),
            same_users(old(self)@, final(self)@),
    {
        proof {
            lemma_settings_keys_distinct();
        }
        self.set_setting("store_name", settings.store_name.as_str());
        self.set_setting("store_address", settings.store_address.as_str());
        self.set_setting("store_phone", settings.store_phone.as_str());
        self.set_setting("store_email", settings.store_email.as_str());
        self.set_setting("receipt_header", settings.receipt_header.as_str());
        self.set_setting("receipt_footer", settings.receipt_footer.as_str());
        if settings.show_logo {
            self.set_setting("show_logo", "true");
        } else {
            self.set_setting("show_logo", "false");
        }
        self.set_setting("backup_frequency", settings.backup_frequency.as_str());
        self.set_setting("printer_model", settings.printer_model.as_str());
        Ok(())
    }
}

/// The printer models discovery reports.
pub fn find_printers() -> (r: Vec<String>)
    ensures
        r@.len() == 3,
        r@[0]@ == "Epson TM-T88VI"@,
        r@[1]@ == "HP DeskJet 2700"@,
        r@[2]@ == "Canon Pixma G2010"@,
{
    let mut r: Vec<String> = Vec::new();
    r.push("Epson TM-T88VI".to_owned());
    r.push("HP DeskJet 2700".to_owned());
    r.push("Canon Pixma G2010".to_owned());
    r
}

/// Overwriting the row at `t`, whose key is `key`, changes that key
/// alone.
proof fn lemma_upsert_preserves(os: Seq<SettingV>, ns: Seq<SettingV>, key: Seq<char>, value: Seq<
    char,
>, t: int)
    requires
        forall|i: int, j: int| 0 <= i < j < os.len() ==> #[trigger] os[i].key != #[trigger] os[j].key,
        0 <= t < os.len(),
        os[t].key == key,
        ns == os.update(t, (SettingV { key, value })),
    ensures
        has_key(ns, key),
        forall|d: Seq<char>| #[trigger] settings_get(ns, key, d) == value,
        forall|k2: Seq<char>, d: Seq<char>|
            k2 != key ==> #[trigger] settings_get(ns, k2, d) == settings_get(os, k2, d),
        forall|k2: Seq<char>| k2 != key ==> #[trigger] has_key(ns, k2) == has_key(os, k2),
{
    assert(ns[t].key == key);
    assert forall|k2: Seq<char>| k2 != key implies #[trigger] has_key(ns, k2) == has_key(
        os,
        k2,
    ) by {
        if has_key(ns, k2) {
            let c = key_index(ns, k2);
            assert(0 <= c < ns.len() && ns[c].key == k2);
            assert(c != t);
            assert(os[c] == ns[c]);
        }
        if has_key(os, k2) {
            let c = key_index(os, k2);
            assert(0 <= c < os.len() && os[c].key == k2);
            assert(c != t);
            assert(ns[c] == os[c]);
        }
    }
    assert forall|d: Seq<char>| #[trigger] settings_get(ns, key, d) == value by {
        let c = key_index(ns, key);
        assert(0 <= c < ns.len() && ns[c].key == key);
        if c != t {
            assert(ns[c] == os[c]);
            assert(os[c].key != os[t].key);
        }
    }
    assert forall|k2: Seq<char>, d: Seq<char>| k2 != key implies #[trigger] settings_get(
        ns,
        k2,
        d,
    ) == settings_get(os, k2, d) by {
        if has_key(ns, k2) {
            let c1 = key_index(ns, k2);
            assert(0 <= c1 < ns.len() && ns[c1].key == k2);
            assert(c1 != t);
            assert(ns[c1] == os[c1]);
            let c2 = key_index(os, k2);
            assert(0 <= c2 < os.len() && os[c2].key == k2);
            if c1 != c2 {
                assert(os[c1].key != os[c2].key);
            }
        }
    }
}

/// Appending a row under a key the table lacks changes that key
/// alone.
proof fn lemma_insert_preserves(os: Seq<SettingV>, ns: Seq<SettingV>, key: Seq<char>, value: Seq<
    char,
>)
    requires
        forall|i: int, j: int| 0 <= i < j < os.len() ==> #[trigger] os[i].key != #[trigger] os[j].key,
        !has_key(os, key),
        ns == os.push((SettingV { key, value })),
    ensures
        has_key(ns, key),
        forall|d: Seq<char>| #[trigger] settings_get(ns, key, d) == value,
        forall|k2: Seq<char>, d: Seq<char>|
            k2 != key ==> #[trigger] settings_get(ns, k2, d) == settings_get(os, k2, d),
        forall|k2: Seq<char>| k2 != key ==> #[trigger] has_key(ns, k2) == has_key(os, k2),
{
    let t = os.len() as int;
    assert(ns[t].key == key);
    assert forall|k2: Seq<char>| k2 != key implies #[trigger] has_key(ns, k2) == has_key(
        os,
        k2,
    ) by {
        if has_key(ns, k2) {
            let c = key_index(ns, k2);
            assert(0 <= c < ns.len() && ns[c].key == k2);
            assert(c != t);
            assert(os[c] == ns[c]);
        }
        if has_key(os, k2) {
            let c = key_index(os, k2);
            assert(0 <= c < os.len() && os[c].key == k2);
            assert(ns[c] == os[c]);
        }
    }
    assert forall|d: Seq<char>| #[trigger] settings_get(ns, key, d) == value by {
        let c = key_index(ns, key);
        assert(0 <= c < ns.len() && ns[c].key == key);
        if c != t {
            assert(ns[c] == os[c]);
            assert(has_key(os, key));
        }
    }
    assert forall|k2: Seq<char>, d: Seq<char>| k2 != key implies #[trigger] settings_get(
        ns,
        k2,
        d,
    ) == settings_get(os, k2, d) by {
        if has_key(ns, k2) {
            let c1 = key_index(ns, k2);
            assert(0 <= c1 < ns.len() && ns[c1].key == k2);
            assert(c1 != t);
            assert(ns[c1] == os[c1]);
            let c2 = key_index(os, k2);
            assert(0 <= c2 < os.len() && os[c2].key == k2);
            if c1 != c2 {
                assert(os[c1].key != os[c2].key);
            }
        }
    }
}

} // verus!
