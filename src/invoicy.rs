//! The invoice editor's state and the decisions taken on each refresh:
//! materialising rows, projecting totals, stamping identifiers.
use vstd::prelude::*;

use crate::amount::{digits_of, fixed_point_text, fixed_text, push_digits, TOTAL_PLACES};
use crate::grid::{
    default_text, GridStore, COLUMNS, PRICE_COLUMN, QUANTITY_COLUMN, TOTAL_COLUMN,
};
use crate::identity::{customer_code, generate_customer_code, next_estimate, next_estimate_number};
use crate::projector::{cell_text, describes_row, project_line_item, project_row, row_total};
use crate::records::{Contact, Customer, DatabaseData, LedgerError};
use crate::text::{chars_of, lower_of, sanitize_string, sanitized, string_of};
use crate::totals::TotalsCache;


verus! {

/// The editor's state: the table, the totals cache, the customer and
/// contact lists with their selections, and the persisted history.
pub struct Invoicy {
    /// Name proposed for the generated document, without extension.
    pub file_name: String,
    pub customer_selected: usize,
    pub contact_selected: usize,
    /// Rows currently shown.
    pub row_count: usize,
    /// Rows below this index have been materialised in the table.
    pub last_updated_row: usize,
    pub table_data: GridStore,
    /// Every line item persisted so far.
    pub database_data_vec: Vec<DatabaseData>,
    /// Draft of a contact being entered.
    pub contact: Contact,
    pub contacts: Vec<Contact>,
    /// Draft of a customer being entered.
    pub customer: Customer,
    pub customers: Vec<Customer>,
    /// Template of the line items of the current estimate.
    pub current_row_value: DatabaseData,
    pub totals: TotalsCache,
    /// Sum of the totals cache, in millionths.
    pub grand_total: i128,
}

/// Largest logo file accepted, in bytes.
pub const MAX_LOGO_BYTES: u64 = 15360;

/// Whether a logo file of `size` bytes may be used.
pub fn logo_within_limit(size: u64) -> (r: bool)
    ensures
        r == (size <= MAX_LOGO_BYTES),
{
    size <= MAX_LOGO_BYTES
}

/// Every row below `rows` has all of its columns in the table.
pub open spec fn rows_materialised(g: Map<(usize, usize), Seq<char>>, rows: nat) -> bool {
    forall|r: usize, c: usize| r < rows && c < COLUMNS ==> #[trigger] g.contains_key((r, c))
}

/// The table after materialising rows `from..to`: existing cells keep
/// their text, missing ones get their default text.
pub open spec fn with_rows(m: Map<(usize, usize), Seq<char>>, from: nat, to: nat) -> Map<
    (usize, usize),
    Seq<char>,
> {
    Map::new(
        |k: (usize, usize)| m.contains_key(k) || (from <= k.0 < to && k.1 < COLUMNS),
        |k: (usize, usize)|
            if m.contains_key(k) {
                m[k]
            } else {
                default_text(k.0 as nat, k.1 as nat)
            },
    )
}

/// The table after writing, in the total cell of each row below `rows`,
/// the text of that row's total.
pub open spec fn with_total_texts(g: Map<(usize, usize), Seq<char>>, rows: nat) -> Map<
    (usize, usize),
    Seq<char>,
> {
    Map::new(
        |k: (usize, usize)| g.contains_key(k) || (k.1 == TOTAL_COLUMN && k.0 < rows),
        |k: (usize, usize)|
            if k.1 == TOTAL_COLUMN && k.0 < rows {
                fixed_text(row_total(g, k.0), TOTAL_PLACES as nat)
            } else {
                g[k]
            },
    )
}

/// The totals cache after caching, at the total position of each row below
/// `rows`, that row's total in table `g`.
pub open spec fn with_row_totals(
    t: Map<(usize, usize), int>,
    g: Map<(usize, usize), Seq<char>>,
    rows: nat,
) -> Map<(usize, usize), int> {
    Map::new(
        |p: (usize, usize)| t.contains_key(p) || (p.1 == TOTAL_COLUMN && p.0 < rows),
        |p: (usize, usize)|
            if p.1 == TOTAL_COLUMN && p.0 < rows {
                row_total(g, p.0)
            } else {
                t[p]
            },
    )
}

/// The table of an editor once the rows it shows are materialised.
pub open spec fn materialised(s: Invoicy) -> Map<(usize, usize), Seq<char>> {
    if s.last_updated_row < s.row_count {
        with_rows(s.table_data@, s.last_updated_row as nat, s.row_count as nat)
    } else {
        s.table_data@
    }
}

/// What a refresh of the table makes of an editor's state.
pub open spec fn refreshed(s: Invoicy, t: Invoicy) -> bool {
    &&& t.wf()
    &&& t.row_count == s.row_count
    &&& t.last_updated_row == if s.last_updated_row < s.row_count {
        s.row_count
    } else {
        s.last_updated_row
    }
    &&& t.table_data@ == with_total_texts(materialised(s), s.row_count as nat)
    &&& t.totals@ == with_row_totals(s.totals@, materialised(s), s.row_count as nat)
    &&& t.grand_total == t.totals.sum()
}

impl Invoicy {
    /// The table and the cache are well formed and every row below
    /// `last_updated_row` is materialised.
    pub open spec fn wf(&self) -> bool {
        &&& self.table_data.wf()
        &&& self.totals.wf()
        &&& rows_materialised(self.table_data@, self.last_updated_row as nat)
    }

    /// A fresh editor: one visible row, nothing materialised, nothing
    /// cached, and placeholder contact, customer and line-item drafts.
    pub fn new() -> (r: Invoicy)
        ensures
            r.wf(),
            r.row_count == 1,
            r.last_updated_row == 0,
            r.table_data@ == Map::<(usize, usize), Seq<char>>::empty(),
            r.totals@ == Map::<(usize, usize), int>::empty(),
            r.grand_total == 0,
            r.database_data_vec@.len() == 0,
            r.customers@.len() == 0,
            r.contacts@.len() == 0,
            r.customer_selected == 0,
            r.contact_selected == 0,
            r.current_row_value.estimate_number == 1,
            r.current_row_value.quantity == 1000,
            r.current_row_value.price == 10000,
            r.current_row_value.total == 10_000_000,
    {
        Invoicy {
            file_name: String::from_str("invoice.pdf"),
            customer_selected: 0,
            contact_selected: 0,
            row_count: 1,
            last_updated_row: 0,
            table_data: GridStore::new(),
            database_data_vec: Vec::new(),
            contact: Contact {
                company: String::from_str("Fake Co."),
                address: String::from_str("1111 Fake Ave."),
                city: String::from_str("Fakeston"),
                postal_code: String::from_str("F4K 3E5"),
                country: String::from_str("United Fakes"),
                name: String::from_str("Fake Fake Smith"),
                telephone: String::from_str("111-111-1111"),
                email: String::from_str("fake@fake.com"),
                website: String::from_str("fake.fake"),
            },
            contacts: Vec::new(),
            customer: Customer {
                company: String::from_str("Fake Co. 2"),
                address: String::from_str("1112 Fake Ave."),
                city: String::from_str("Fakeshire"),
                postal_code: String::from_str("F4K 3A3"),
                country: String::from_str("Fakeland"),
            },
            customers: Vec::new(),
            current_row_value: DatabaseData {
                entry_id: String::from_str("FAKE-1-0"),
                estimate_number: 1,
                cust_id: String::from_str("FAKE"),
                row_number: 0,
                description: String::from_str("write something down"),
                quantity: 1000,
                price: 10000,
                total: 10_000_000,
            },
            totals: TotalsCache::new(),
            grand_total: 0,
        }
    }

    /// Shows one more row; nothing changes once the count is `usize::MAX`.
    pub fn add_row(&mut self)
        ensures
            final(self).row_count == if old(self).row_count < usize::MAX {
                old(self).row_count + 1
            } else {
                old(self).row_count as int
            },
            final(self).last_updated_row == old(self).last_updated_row,
            final(self).table_data == old(self).table_data,
            final(self).totals == old(self).totals,
    {
        if self.row_count < usize::MAX {
            self.row_count = self.row_count + 1;
        }
    }

    /// Shows one row fewer. The row's cells and cached total are kept.
    pub fn delete_row(&mut self)
        ensures
            final(self).row_count == if old(self).row_count > 0 {
                old(self).row_count - 1
            } else {
                0
            },
            final(self).last_updated_row == old(self).last_updated_row,
            final(self).table_data == old(self).table_data,
            final(self).totals == old(self).totals,
    {
        if self.row_count > 0 {
            self.row_count = self.row_count - 1;
        }
    }

    /// Sets the grand total to the sum of the totals cache.
    pub fn calculate_grand_total(&mut self)
        ensures
            final(self).grand_total == old(self).totals.sum(),
            *final(self) == (Invoicy { grand_total: final(self).grand_total, ..*old(self) }),
    {
        self.grand_total = self.totals.grand_total();
    }

    /// The code of the customer at `idx`.
    pub fn generate_customer_id(&self, idx: usize) -> (r: Result<String, LedgerError>)
        ensures
            idx >= self.customers@.len() ==> r == Err::<String, LedgerError>(
                LedgerError::NoCustomer,
            ),
            idx < self.customers@.len() ==> {
                let name = self.customers@[idx as int].company@;
                &&& r is Err <==> name.len() < 4
                &&& r matches Ok(code) ==> code@ == customer_code(name)
                &&& r matches Ok(code) ==> code@.len() == 4
                &&& r matches Err(e) ==> e == LedgerError::NameTooShort
            },
    {
        if idx >= self.customers.len() {
            return Err(LedgerError::NoCustomer);
        }
        generate_customer_code(self.customers[idx].company.as_str())
    }

    /// Selects the customer at `idx` and stamps its code on the line-item
    /// template; nothing changes when there is no such customer or its
    /// name is too short for a code.
    pub fn customer_select(&mut self, idx: usize) -> (r: Result<(), LedgerError>)
        ensures
            idx >= old(self).customers@.len() ==> r == Err::<(), LedgerError>(
                LedgerError::NoCustomer,
            ),
            idx < old(self).customers@.len() ==> (r is Err <==> old(
                self,
            ).customers@[idx as int].company@.len() < 4),
            r is Ok ==> final(self).customer_selected == idx
                && final(self).current_row_value.cust_id@ == customer_code(
                old(self).customers@[idx as int].company@,
            ),
            r is Ok ==> *final(self) == (Invoicy {
                customer_selected: idx,
                current_row_value: (DatabaseData {
                    cust_id: final(self).current_row_value.cust_id,
                    ..old(self).current_row_value
                }),
                ..*old(self)
            }),
            r is Err ==> *final(self) == *old(self),
    {
        match self.generate_customer_id(idx) {
            Ok(code) => {
                self.customer_selected = idx;
                self.current_row_value.cust_id = code;
                Ok(())
            },
            Err(e) => Err(e),
        }
    }

    /// Selects the contact at `idx`; an index outside the list is ignored.
    pub fn contact_select(&mut self, idx: usize)
        ensures
            final(self).contact_selected == if idx < old(self).contacts@.len() {
                idx
            } else {
                old(self).contact_selected
            },
            final(self).contacts == old(self).contacts,
    {
        if idx < self.contacts.len() {
            self.contact_selected = idx;
        }
    }

    /// Sets the template's estimate number to the next one of the selected
    /// customer, computed afresh from the persisted history.
    pub fn update_estimate_number(&mut self) -> (r: Result<(), LedgerError>)
        ensures
            old(self).customer_selected >= old(self).customers@.len() ==> r == Err::<
                (),
                LedgerError,
            >(LedgerError::NoCustomer),
            old(self).customer_selected < old(self).customers@.len() ==> {
                let code = customer_code(
                    old(self).customers@[old(self).customer_selected as int].company@,
                );
                let name = old(self).customers@[old(self).customer_selected as int].company@;
                let next = next_estimate(old(self).database_data_vec@, code);
                &&& name.len() < 4 ==> r == Err::<(), LedgerError>(LedgerError::NameTooShort)
                &&& name.len() >= 4 && next > usize::MAX ==> r == Err::<(), LedgerError>(
                    LedgerError::EstimateOverflow,
                )
                &&& name.len() >= 4 && next <= usize::MAX ==> r is Ok
                    && final(self).current_row_value.estimate_number == next
            },
            r is Ok ==> *final(self) == (Invoicy {
                current_row_value: (DatabaseData {
                    estimate_number: final(self).current_row_value.estimate_number,
                    ..old(self).current_row_value
                }),
                ..*old(self)
            }),
            r is Err ==> *final(self) == *old(self),
    {
        let code = match self.generate_customer_id(self.customer_selected) {
            Ok(code) => code,
            Err(e) => {
                return Err(e);
            },
        };
        match next_estimate_number(&self.database_data_vec, &code) {
            Some(n) => {
                self.current_row_value.estimate_number = n;
                Ok(())
            },
            None => Err(LedgerError::EstimateOverflow),
        }
    }

    /// Takes in the records loaded from the store, caches a zero total for
    /// the first row and proposes a document name from the customer draft
    /// and the current estimate number.
    pub fn initialize_application(
        &mut self,
        contacts: Vec<Contact>,
        customers: Vec<Customer>,
        history: Vec<DatabaseData>,
    )
        requires
            old(self).wf(),
        ensures
            final(self).wf(),
            final(self).contacts@ == contacts@,
            final(self).customers@ == customers@,
            final(self).database_data_vec@ == history@,
            final(self).totals@ == old(self).totals@.insert((0, TOTAL_COLUMN), 0),
            final(self).file_name@ == sanitized(lower_of(old(self).customer.company@)) + seq![
                '-',
            ] + digits_of(old(self).current_row_value.estimate_number as nat),
            final(self).table_data == old(self).table_data,
            final(self).row_count == old(self).row_count,
            final(self).last_updated_row == old(self).last_updated_row,
            final(self).current_row_value == old(self).current_row_value,
    {
        self.contacts = contacts;
        self.customers = customers;
        self.database_data_vec = history;
        self.totals.upsert((0, TOTAL_COLUMN), 0);
        let base = sanitize_string(self.customer.company.as_str());
        let mut out = chars_of(base.as_str());
        out.push('-');
        push_digits(self.current_row_value.estimate_number as u128, &mut out);
        self.file_name = string_of(&out);
    }

    /// Proposes a document name from the selected customer's company and
    /// the current estimate number: `{sanitised company}-{estimate}`.
    pub fn update_file_name(&mut self) -> (r: Result<(), LedgerError>)
        ensures
            r is Err <==> old(self).customer_selected >= old(self).customers@.len(),
            r is Err ==> r == Err::<(), LedgerError>(LedgerError::NoCustomer)
                && final(self).file_name == old(self).file_name,
            r is Ok ==> final(self).file_name@ == sanitized(
                lower_of(old(self).customers@[old(self).customer_selected as int].company@),
            ) + seq!['-'] + digits_of(old(self).current_row_value.estimate_number as nat),
    {
        if self.customer_selected >= self.customers.len() {
            return Err(LedgerError::NoCustomer);
        }
        let base = sanitize_string(self.customers[self.customer_selected].company.as_str());
        let mut out = chars_of(base.as_str());
        out.push('-');
        push_digits(self.current_row_value.estimate_number as u128, &mut out);
        self.file_name = string_of(&out);
        Ok(())
    }

    /// Refreshes the table: materialises the rows shown that are not in the
    /// table yet, projects every row shown, writes each row's total into its
    /// total cell and caches it, then recomputes the grand total. Rows that
    /// are no longer shown keep their cells and cached totals.
    pub fn refresh_table(&mut self)
        requires
            old(self).wf(),
        ensures
            refreshed(*old(self), *final(self)),
            *final(self) == (Invoicy {
                table_data: final(self).table_data,
                totals: final(self).totals,
                last_updated_row: final(self).last_updated_row,
                grand_total: final(self).grand_total,
                ..*old(self)
            }),
    {
        let ghost g0 = self.table_data@;
        let ghost t0 = self.totals@;
        if self.last_updated_row < self.row_count {
            let from = self.last_updated_row;
            let mut r: usize = from;
            assert(self.table_data@ =~= with_rows(g0, from as nat, from as nat));
            while r < self.row_count
                invariant
                    *self == (Invoicy {
                        table_data: self.table_data,
                        totals: self.totals,
                        last_updated_row: self.last_updated_row,
                        ..*old(self)
                    }),
                    self.totals == old(self).totals,
                    self.last_updated_row == old(self).last_updated_row,
                    from == old(self).last_updated_row,
                    g0 == old(self).table_data@,
                    self.table_data.wf(),
                    from <= r <= self.row_count,
                    self.table_data@ == with_rows(g0, from as nat, r as nat),
                decreases self.row_count - r,
            {
                self.table_data.ensure_row(r);
                assert(self.table_data@ =~= with_rows(g0, from as nat, r as nat + 1));
                r += 1;
            }
            self.last_updated_row = self.row_count;
        }
        let ghost g1 = self.table_data@;
        assert(g1 == materialised(*old(self)));
        assert(rows_materialised(g1, self.last_updated_row as nat));
        let mut r: usize = 0;
        assert(self.table_data@ =~= with_total_texts(g1, 0));
        assert(self.totals@ =~= with_row_totals(t0, g1, 0));
        while r < self.row_count
            invariant
                *self == (Invoicy {
                    table_data: self.table_data,
                    totals: self.totals,
                    last_updated_row: self.last_updated_row,
                    ..*old(self)
                }),
                self.last_updated_row == if old(self).last_updated_row < old(self).row_count {
                    old(self).row_count
                } else {
                    old(self).last_updated_row
                },
                g1 == materialised(*old(self)),
                t0 == old(self).totals@,
                self.table_data.wf(),
                self.totals.wf(),
                r <= self.row_count,
                self.row_count <= self.last_updated_row,
                rows_materialised(g1, self.last_updated_row as nat),
                self.table_data@ == with_total_texts(g1, r as nat),
                self.totals@ == with_row_totals(t0, g1, r as nat),
            decreases self.row_count - r,
        {
            let values = project_row(&self.table_data, r);
            assert(cell_text(self.table_data@, r, QUANTITY_COLUMN) == cell_text(
                g1,
                r,
                QUANTITY_COLUMN,
            ));
            assert(cell_text(self.table_data@, r, PRICE_COLUMN) == cell_text(g1, r, PRICE_COLUMN));
            let text = fixed_point_text(values.total as i128, TOTAL_PLACES);
            self.table_data.set(r, TOTAL_COLUMN, text);
            assert(self.table_data@ =~= with_total_texts(g1, r as nat + 1));
            self.totals.upsert((r, TOTAL_COLUMN), values.total);
            assert(self.totals@ =~= with_row_totals(t0, g1, r as nat + 1));
            r += 1;
        }
        assert forall|a: usize, c: usize|
            a < self.last_updated_row && c < COLUMNS implies #[trigger] self.table_data@.contains_key(
            (a, c),
        ) by {
            assert(g1.contains_key((a, c)));
        }
        self.calculate_grand_total();
    }

    /// Stamps every row shown as a line item of the selected customer's
    /// current estimate and appends them, in row order, to the persisted
    /// history. Returns the index in the history of the first new item.
    pub fn add_data(&mut self) -> (r: Result<usize, LedgerError>)
        requires
            old(self).wf(),
        ensures
            final(self).wf(),
            old(self).customer_selected >= old(self).customers@.len() ==> r == Err::<
                usize,
                LedgerError,
            >(LedgerError::NoCustomer),
            old(self).customer_selected < old(self).customers@.len() ==> (r is Err <==> old(
                self,
            ).customers@[old(self).customer_selected as int].company@.len() < 4),
            r is Err ==> *final(self) == *old(self),
            r matches Ok(start) ==> {
                let code = customer_code(
                    old(self).customers@[old(self).customer_selected as int].company@,
                );
                let h = final(self).database_data_vec@;
                &&& start == old(self).database_data_vec@.len()
                &&& h.len() == start + old(self).row_count
                &&& h.take(start as int) == old(self).database_data_vec@
                &&& forall|i: int|
                    0 <= i < old(self).row_count ==> describes_row(
                        #[trigger] h[start + i],
                        old(self).table_data@,
                        i as usize,
                        code,
                        old(self).current_row_value.estimate_number,
                    )
            },
            *final(self) == (Invoicy {
                database_data_vec: final(self).database_data_vec,
                ..*old(self)
            }),
    {
        let code = match self.generate_customer_id(self.customer_selected) {
            Ok(code) => code,
            Err(e) => {
                return Err(e);
            },
        };
        let start = self.database_data_vec.len();
        let estimate = self.current_row_value.estimate_number;
        let mut i: usize = 0;
        while i < self.row_count
            invariant
                *self == (Invoicy { database_data_vec: self.database_data_vec, ..*old(self) }),
                old(self).wf(),
                self.table_data.wf(),
                self.row_count == old(self).row_count,
                self.customers == old(self).customers,
                start == old(self).database_data_vec@.len(),
                estimate == old(self).current_row_value.estimate_number,
                code@ == customer_code(
                    old(self).customers@[old(self).customer_selected as int].company@,
                ),
                i <= self.row_count,
                self.database_data_vec@.len() == start + i,
                self.database_data_vec@.take(start as int) == old(self).database_data_vec@,
                forall|k: int|
                    0 <= k < i ==> describes_row(
                        #[trigger] self.database_data_vec@[start + k],
                        old(self).table_data@,
                        k as usize,
                        code@,
                        estimate,
                    ),
            decreases self.row_count - i,
        {
            let item = project_line_item(&self.table_data, i, &code, estimate);
            let ghost before = self.database_data_vec@;
            self.database_data_vec.push(item);
            assert(self.database_data_vec@.take(start as int) == before.take(start as int));
            assert forall|k: int| 0 <= k < i + 1 implies describes_row(
                #[trigger] self.database_data_vec@[start + k],
                old(self).table_data@,
                k as usize,
                code@,
                estimate,
            ) by {
                if k < i {
                    assert(self.database_data_vec@[start + k] == before[start + k]);
                }
            }
            i += 1;
        }
        Ok(start)
    }
}

/// Refreshing an unchanged table twice gives the same table, the same
/// cached totals and the same grand total as refreshing it once.
pub proof fn lemma_refresh_idempotent(s0: Invoicy, s1: Invoicy, s2: Invoicy)
    requires
        s0.wf(),
        refreshed(s0, s1),
        refreshed(s1, s2),
    ensures
        s2.table_data@ == s1.table_data@,
        s2.totals@ == s1.totals@,
        s2.grand_total == s1.grand_total,
{
    let g1 = materialised(s0);
    let n = s0.row_count as nat;
    assert(materialised(s1) == s1.table_data@);
    assert forall|r: usize| r < n implies row_total(s1.table_data@, r) == row_total(g1, r) by {
        assert(cell_text(s1.table_data@, r, QUANTITY_COLUMN) == cell_text(g1, r, QUANTITY_COLUMN));
        assert(cell_text(s1.table_data@, r, PRICE_COLUMN) == cell_text(g1, r, PRICE_COLUMN));
    }
    assert(s2.table_data@ =~= s1.table_data@);
    assert(s2.totals@ =~= s1.totals@);
    TotalsCache::lemma_sum_determined(&s2.totals, &s1.totals);
}

} // verus!
