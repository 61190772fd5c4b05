//! The stream-scoped symbol table: a dense, 1-based mapping from symbol IDs
//! to optional text, whose first nine entries are the immutable system
//! symbols, and the pending-change buffer that a symbol-table structure fills
//! before it is committed.

use vstd::prelude::*;

verus! {

/// The text `$ion`, as UTF-8 bytes.
pub open spec fn text_ion() -> Seq<u8> {
    seq![36u8, 105u8, 111u8, 110u8]
}

/// The text `$ion_1_0`, as UTF-8 bytes.
pub open spec fn text_ion_1_0() -> Seq<u8> {
    seq![36u8, 105u8, 111u8, 110u8, 95u8, 49u8, 95u8, 48u8]
}

/// The text `$ion_symbol_table`, as UTF-8 bytes.
pub open spec fn text_ion_symbol_table() -> Seq<u8> {
    seq![36u8, 105u8, 111u8, 110u8, 95u8, 115u8, 121u8, 109u8, 98u8, 111u8, 108u8, 95u8, 116u8, 97u8, 98u8, 108u8, 101u8]
}

/// The text `name`, as UTF-8 bytes.
pub open spec fn text_name() -> Seq<u8> {
    seq![110u8, 97u8, 109u8, 101u8]
}

/// The text `version`, as UTF-8 bytes.
pub open spec fn text_version() -> Seq<u8> {
    seq![118u8, 101u8, 114u8, 115u8, 105u8, 111u8, 110u8]
}

/// The text `imports`, as UTF-8 bytes.
pub open spec fn text_imports() -> Seq<u8> {
    seq![105u8, 109u8, 112u8, 111u8, 114u8, 116u8, 115u8]
}

/// The text `symbols`, as UTF-8 bytes.
pub open spec fn text_symbols() -> Seq<u8> {
    seq![115u8, 121u8, 109u8, 98u8, 111u8, 108u8, 115u8]
}

/// The text `max_id`, as UTF-8 bytes.
pub open spec fn text_max_id() -> Seq<u8> {
    seq![109u8, 97u8, 120u8, 95u8, 105u8, 100u8]
}

/// The text `$ion_shared_symbol_table`, as UTF-8 bytes.
pub open spec fn text_ion_shared_symbol_table() -> Seq<u8> {
    seq![36u8, 105u8, 111u8, 110u8, 95u8, 115u8, 104u8, 97u8, 114u8, 101u8, 100u8, 95u8, 115u8, 121u8, 109u8, 98u8, 111u8, 108u8, 95u8, 116u8, 97u8, 98u8, 108u8, 101u8]
}

/// Builds the text `$ion`.
pub fn text_ion_vec() -> (r: Vec<u8>)
    ensures
        r@ == text_ion(),
{
    let mut r: Vec<u8> = Vec::new();
    r.push(36);
    r.push(105);
    r.push(111);
    r.push(110);
    proof {
        assert(r@ =~= text_ion());
    }
    r
}

/// Builds the text `$ion_1_0`.
pub fn text_ion_1_0_vec() -> (r: Vec<u8>)
    ensures
        r@ == text_ion_1_0(),
{
    let mut r: Vec<u8> = Vec::new();
    r.push(36);
    r.push(105);
    r.push(111);
    r.push(110);
    r.push(95);
    r.push(49);
    r.push(95);
    r.push(48);
    proof {
        assert(r@ =~= text_ion_1_0());
    }
    r
}

/// Builds the text `$ion_symbol_table`.
pub fn text_ion_symbol_table_vec() -> (r: Vec<u8>)
    ensures
        r@ == text_ion_symbol_table(),
{
    let mut r: Vec<u8> = Vec::new();
    r.push(36);
    r.push(105);
    r.push(111);
    r.push(110);
    r.push(95);
    r.push(115);
    r.push(121);
    r.push(109);
    r.push(98);
    r.push(111);
    r.push(108);
    r.push(95);
    r.push(116);
    r.push(97);
    r.push(98);
    r.push(108);
    r.push(101);
    proof {
        assert(r@ =~= text_ion_symbol_table());
    }
    r
}

/// Builds the text `name`.
pub fn text_name_vec() -> (r: Vec<u8>)
    ensures
        r@ == text_name(),
{
    let mut r: Vec<u8> = Vec::new();
    r.push(110);
    r.push(97);
    r.push(109);
    r.push(101);
    proof {
        assert(r@ =~= text_name());
    }
    r
}

/// Builds the text `version`.
pub fn text_version_vec() -> (r: Vec<u8>)
    ensures
        r@ == text_version(),
{
    let mut r: Vec<u8> = Vec::new();
    r.push(118);
    r.push(101);
    r.push(114);
    r.push(115);
    r.push(105);
    r.push(111);
    r.push(110);
    proof {
        assert(r@ =~= text_version());
    }
    r
}

/// Builds the text `imports`.
pub fn text_imports_vec() -> (r: Vec<u8>)
    ensures
        r@ == text_imports(),
{
    let mut r: Vec<u8> = Vec::new();
    r.push(105);
    r.push(109);
    r.push(112);
    r.push(111);
    r.push(114);
    r.push(116);
    r.push(115);
    proof {
        assert(r@ =~= text_imports());
    }
    r
}

/// Builds the text `symbols`.
pub fn text_symbols_vec() -> (r: Vec<u8>)
    ensures
        r@ == text_symbols(),
{
    let mut r: Vec<u8> = Vec::new();
    r.push(115);
    r.push(121);
    r.push(109);
    r.push(98);
    r.push(111);
    r.push(108);
    r.push(115);
    proof {
        assert(r@ =~= text_symbols());
    }
    r
}

/// Builds the text `max_id`.
pub fn text_max_id_vec() -> (r: Vec<u8>)
    ensures
        r@ == text_max_id(),
{
    let mut r: Vec<u8> = Vec::new();
    r.push(109);
    r.push(97);
    r.push(120);
    r.push(95);
    r.push(105);
    r.push(100);
    proof {
        assert(r@ =~= text_max_id());
    }
    r
}

/// Builds the text `$ion_shared_symbol_table`.
pub fn text_ion_shared_symbol_table_vec() -> (r: Vec<u8>)
    ensures
        r@ == text_ion_shared_symbol_table(),
{
    let mut r: Vec<u8> = Vec::new();
    r.push(36);
    r.push(105);
    r.push(111);
    r.push(110);
    r.push(95);
    r.push(115);
    r.push(104);
    r.push(97);
    r.push(114);
    r.push(101);
    r.push(100);
    r.push(95);
    r.push(115);
    r.push(121);
    r.push(109);
    r.push(98);
    r.push(111);
    r.push(108);
    r.push(95);
    r.push(116);
    r.push(97);
    r.push(98);
    r.push(108);
    r.push(101);
    proof {
        assert(r@ =~= text_ion_shared_symbol_table());
    }
    r
}

/// The system symbols, always present as IDs 1 through 9.
pub open spec fn system_symbols() -> Seq<Option<Seq<u8>>> {
    seq![
        Some(text_ion()),
        Some(text_ion_1_0()),
        Some(text_ion_symbol_table()),
        Some(text_name()),
        Some(text_version()),
        Some(text_imports()),
        Some(text_symbols()),
        Some(text_max_id()),
        Some(text_ion_shared_symbol_table()),
    ]
}

/// Copies a byte buffer.
pub fn clone_bytes(v: &Vec<u8>) -> (r: Vec<u8>)
    ensures
        r@ == v@,
{
    let mut r: Vec<u8> = Vec::new();
    let mut i: usize = 0;
    while i < v.len()
        invariant
            i <= v@.len(),
            r@ == v@.take(i as int),
        decreases v@.len() - i,
    {
        r.push(v[i]);
        proof {
            assert(v@.take(i as int + 1) =~= v@.take(i as int).push(v@[i as int]));
        }
        i = i + 1;
    }
    proof {
        assert(v@.take(v@.len() as int) =~= v@);
    }
    r
}

/// Copies a symbol entry.
pub fn clone_entry(e: &Option<Vec<u8>>) -> (r: Option<Vec<u8>>)
    ensures
        r.deep_view() == e.deep_view(),
{
    match e {
        Some(v) => Some(clone_bytes(v)),
        None => None,
    }
}

/// Whether two byte buffers hold the same bytes.
pub fn bytes_eq(a: &Vec<u8>, b: &Vec<u8>) -> (r: bool)
    ensures
        r == (a@ == b@),
{
    if a.len() != b.len() {
        proof {
            assert(a@ != b@);
        }
        return false;
    }
    let mut i: usize = 0;
    while i < a.len()
        invariant
            i <= a@.len(),
            a@.len() == b@.len(),
            forall|j: int| 0 <= j < i ==> a@[j] == b@[j],
        decreases a@.len() - i,
    {
        if a[i] != b[i] {
            return false;
        }
        i = i + 1;
    }
    proof {
        assert(a@ =~= b@);
    }
    true
}

/// Builds the nine system symbols.
pub fn system_symbols_vec() -> (r: Vec<Option<Vec<u8>>>)
    ensures
        r.deep_view() == system_symbols(),
{
    let mut r: Vec<Option<Vec<u8>>> = Vec::new();
    r.push(Some(text_ion_vec()));
    r.push(Some(text_ion_1_0_vec()));
    r.push(Some(text_ion_symbol_table_vec()));
    r.push(Some(text_name_vec()));
    r.push(Some(text_version_vec()));
    r.push(Some(text_imports_vec()));
    r.push(Some(text_symbols_vec()));
    r.push(Some(text_max_id_vec()));
    r.push(Some(text_ion_shared_symbol_table_vec()));
    proof {
        assert(r.deep_view() =~~= system_symbols());
    }
    r
}

/// The live symbol table: IDs are dense and 1-based; the view is the sequence
/// of entries, so the symbol with ID `i` is entry `i - 1`.
pub struct SymbolTable {
    symbols: Vec<Option<Vec<u8>>>,
}

impl View for SymbolTable {
    type V = Seq<Option<Seq<u8>>>;

    closed spec fn view(&self) -> Seq<Option<Seq<u8>>> {
        self.symbols.deep_view()
    }
}

/// The system symbols are always the table's first nine entries.
pub open spec fn table_wf(t: Seq<Option<Seq<u8>>>) -> bool {
    t.len() >= 9 && t.subrange(0, 9) == system_symbols()
}

impl SymbolTable {
    /// A table holding exactly the system symbols.
    pub fn new() -> (r: SymbolTable)
        ensures
            r@ == system_symbols(),
            table_wf(r@),
    {
        let r = SymbolTable { symbols: system_symbols_vec() };
        proof {
            assert(r@.subrange(0, 9) =~~= system_symbols());
        }
        r
    }

    /// The number of assigned symbol IDs.
    pub fn len(&self) -> (r: usize)
        ensures
            r == self@.len(),
    {
        self.symbols.len()
    }

    /// The text bound to a symbol ID, if the ID is assigned and has text.
    pub fn symbol_text(&self, sid: u64) -> (r: Option<Vec<u8>>)
        ensures
            ({
                if 1 <= sid && sid <= self@.len() {
                    match self@[sid as int - 1] {
                        Some(t) => r matches Some(v) && v@ == t,
                        None => r is None,
                    }
                } else {
                    r is None
                }
            }),
    {
        if sid >= 1 && sid <= self.symbols.len() as u64 {
            let index: usize = (sid - 1) as usize;
            match &self.symbols[index] {
                Some(v) => Some(clone_bytes(v)),
                None => None,
            }
        } else {
            None
        }
    }

    /// Discards everything but the immutable system symbols.
    pub fn reset(&mut self)
        ensures
            final(self)@ == system_symbols(),
            table_wf(final(self)@),
    {
        self.symbols = system_symbols_vec();
        proof {
            assert(final(self)@.subrange(0, 9) =~~= system_symbols());
        }
    }

    /// Appends one entry, assigning it the next sequential ID; an entry
    /// without text still consumes an ID.
    pub fn intern_or_add_placeholder(&mut self, symbol: Option<Vec<u8>>)
        ensures
            final(self)@ == old(self)@.push(symbol.deep_view()),
            table_wf(old(self)@) ==> table_wf(final(self)@),
    {
        let ghost before = self.symbols.deep_view();
        self.symbols.push(symbol);
        proof {
            assert(final(self)@ =~~= before.push(final(self).symbols@[before.len() as int].deep_view()));
            if table_wf(before) {
                assert(final(self)@.subrange(0, 9) =~~= before.subrange(0, 9));
            }
        }
    }
}

/// The pending local-symbol-table change set: filled while scanning one
/// symbol-table structure, drained by the commit that runs before the next
/// top-level item is surfaced.
pub struct PendingLst {
    pub has_changes: bool,
    pub is_lst_append: bool,
    pub symbols: Vec<Option<Vec<u8>>>,
}

/// Ghost model of a `PendingLst`.
pub struct PendingLstModel {
    pub has_changes: bool,
    pub is_lst_append: bool,
    pub symbols: Seq<Option<Seq<u8>>>,
}

impl View for PendingLst {
    type V = PendingLstModel;

    open spec fn view(&self) -> PendingLstModel {
        PendingLstModel {
            has_changes: self.has_changes,
            is_lst_append: self.is_lst_append,
            symbols: self.symbols.deep_view(),
        }
    }
}

/// A pending set with nothing queued.
pub open spec fn empty_pending() -> PendingLstModel {
    PendingLstModel { has_changes: false, is_lst_append: false, symbols: Seq::empty() }
}

impl PendingLst {
    /// An empty pending set.
    pub fn new() -> (r: PendingLst)
        ensures
            r@ == empty_pending(),
    {
        let r = PendingLst { has_changes: false, is_lst_append: false, symbols: Vec::new() };
        proof {
            assert(r@.symbols =~~= empty_pending().symbols);
        }
        r
    }
}

} // verus!
