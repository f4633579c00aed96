//! The value model: tagged-union values and tables.
//!
//! A table holds an ordered array part and a keyed hash part. Keys are
//! restricted to text. Numbers are carried as the bit pattern of an IEEE 754
//! double; the library never computes with them, it only stores, copies and
//! renders them, so the bit pattern is the whole truth about a number here.

use vstd::prelude::*;

verus! {

/// A value storable in a table: nil, a boolean, a number (held as the bit
/// pattern of an IEEE 754 double), owned text, or a nested table that this
/// value owns.
#[derive(Debug)]
pub enum LuaValue {
    /// The absence of a value.
    Nil,
    /// A boolean.
    Boolean(bool),
    /// A double-precision number, held by its bit pattern.
    Number(u64),
    /// Owned text.
    Text(String),
    /// An owned nested table.
    Table(Table),
}

/// A table key. Keys are deliberately narrowed to text: the numeric variant
/// cannot be hashed or compared bit-for-bit safely across all values.
#[derive(Debug)]
pub enum LuaKey {
    /// A text key.
    Text(String),
}

/// A table: an ordered array part plus a keyed hash part.
///
/// The array part preserves insertion order and is append-only. The hash
/// part keeps at most one entry per key; a repeated put overwrites the value
/// in the key's original slot.
#[derive(Debug)]
pub struct Table {
    array: Vec<LuaValue>,
    hash: Vec<(LuaKey, LuaValue)>,
}

/// The mathematical shape of a value.
#[verifier::ext_equal]
pub ghost enum ValueModel {
    /// The absence of a value.
    Nil,
    /// A boolean.
    Boolean(bool),
    /// A double-precision number, by its bit pattern.
    Number(u64),
    /// Text, as a sequence of characters.
    Text(Seq<char>),
    /// A nested table.
    Table(TableModel),
}

/// The mathematical shape of a table: the array part as a sequence of value
/// models, and the hash part as a sequence of key/value entries in
/// first-insertion order with unique keys.
#[verifier::ext_equal]
pub ghost struct TableModel {
    /// The array part.
    pub arr: Seq<ValueModel>,
    /// The hash part.
    pub map: Seq<(Seq<char>, ValueModel)>,
}

/// The characters of a key.
pub open spec fn key_chars(k: LuaKey) -> Seq<char> {
    match k {
        LuaKey::Text(s) => s@,
    }
}

/// The model of a value.
pub open spec fn value_model(v: LuaValue) -> ValueModel
    decreases v,
{
    match v {
        LuaValue::Nil => ValueModel::Nil,
        LuaValue::Boolean(b) => ValueModel::Boolean(b),
        LuaValue::Number(bits) => ValueModel::Number(bits),
        LuaValue::Text(s) => ValueModel::Text(s@),
        LuaValue::Table(t) => ValueModel::Table(table_model(t)),
    }
}

/// The models of a sequence of values, in order.
pub open spec fn values_model(s: Seq<LuaValue>) -> Seq<ValueModel>
    decreases s,
{
    if s.len() == 0 {
        Seq::empty()
    } else {
        values_model(s.drop_last()).push(value_model(s.last()))
    }
}

/// The models of a sequence of hash entries, in order.
pub open spec fn pairs_model(s: Seq<(LuaKey, LuaValue)>) -> Seq<(Seq<char>, ValueModel)>
    decreases s,
{
    if s.len() == 0 {
        Seq::empty()
    } else {
        pairs_model(s.drop_last()).push(
            (key_chars(s.last().0), value_model(s.last().1)),
        )
    }
}

/// The model of a table.
pub closed spec fn table_model(t: Table) -> TableModel
    decreases t,
{
    TableModel { arr: values_model(t.array@), map: pairs_model(t.hash@) }
}

/// The model of an empty table.
pub open spec fn empty_table_model() -> TableModel {
    TableModel { arr: Seq::empty(), map: Seq::empty() }
}

/// Whether a hash part is well formed: no key occurs twice.
pub open spec fn map_keys_unique(m: Seq<(Seq<char>, ValueModel)>) -> bool {
    forall|i: int, j: int| 0 <= i < j < m.len() ==> (#[trigger] m[i]).0 != (#[trigger] m[j]).0
}

/// Whether a value is well formed: every table in it is well formed.
pub open spec fn value_wf(v: ValueModel) -> bool
    decreases v,
{
    match v {
        ValueModel::Table(m) => table_wf(m),
        _ => true,
    }
}

/// Whether a table is well formed: its keys are unique and every value in it
/// is well formed, recursively.
pub open spec fn table_wf(m: TableModel) -> bool
    decreases m,
{
    &&& map_keys_unique(m.map)
    &&& forall|i: int| 0 <= i < m.arr.len() ==> value_wf(#[trigger] m.arr[i])
    &&& forall|i: int| 0 <= i < m.map.len() ==> value_wf((#[trigger] m.map[i]).1)
}

/// Whether a hash part has an entry for a key.
pub open spec fn map_has_key(m: Seq<(Seq<char>, ValueModel)>, k: Seq<char>) -> bool {
    exists|i: int| 0 <= i < m.len() && (#[trigger] m[i]).0 == k
}

/// The index of the entry for a key.
pub open spec fn map_key_index(m: Seq<(Seq<char>, ValueModel)>, k: Seq<char>) -> int {
    choose|i: int| 0 <= i < m.len() && (#[trigger] m[i]).0 == k
}

/// The upsert on a hash part: overwrite the value in the key's existing
/// slot, or append a new entry for a new key.
pub open spec fn map_put(
    m: Seq<(Seq<char>, ValueModel)>,
    k: Seq<char>,
    v: ValueModel,
) -> Seq<(Seq<char>, ValueModel)> {
    if map_has_key(m, k) {
        m.update(map_key_index(m, k), (k, v))
    } else {
        m.push((k, v))
    }
}

/// The value stored for a key.
pub open spec fn map_get(m: Seq<(Seq<char>, ValueModel)>, k: Seq<char>) -> ValueModel {
    m[map_key_index(m, k)].1
}

/// The numbers of the array part, in order, skipping values of other kinds.
pub open spec fn numeric_projection(arr: Seq<ValueModel>) -> Seq<u64>
    decreases arr,
{
    if arr.len() == 0 {
        Seq::empty()
    } else {
        let rest = numeric_projection(arr.drop_last());
        match arr.last() {
            ValueModel::Number(bits) => rest.push(bits),
            _ => rest,
        }
    }
}

/// The given bit patterns as a sequence of number values.
pub open spec fn number_values(bs: Seq<u64>) -> Seq<ValueModel>
    decreases bs,
{
    if bs.len() == 0 {
        Seq::empty()
    } else {
        number_values(bs.drop_last()).push(ValueModel::Number(bs.last()))
    }
}

/// The number of values in a value's tree, the value itself included.
pub open spec fn value_size(v: LuaValue) -> nat
    decreases v, 1int,
{
    match v {
        LuaValue::Table(t) => 1 + table_size(t),
        _ => 1,
    }
}

/// The number of values in a table's tree, the table itself included.
pub closed spec fn table_size(t: Table) -> nat
    decreases t, 0int,
{
    1 + values_size(t.array@) + pairs_size(t.hash@)
}

/// The total tree size of a sequence of values.
pub open spec fn values_size(s: Seq<LuaValue>) -> nat
    decreases s, 2int,
{
    if s.len() == 0 {
        0
    } else {
        values_size(s.drop_last()) + value_size(s.last())
    }
}

/// The total tree size of a sequence of hash entries.
pub open spec fn pairs_size(s: Seq<(LuaKey, LuaValue)>) -> nat
    decreases s, 2int,
{
    if s.len() == 0 {
        0
    } else {
        pairs_size(s.drop_last()) + value_size(s.last().1)
    }
}

/// The total tree size of a sequence of tables.
pub open spec fn tables_size(s: Seq<Table>) -> nat
    decreases s, 1int,
{
    if s.len() == 0 {
        0
    } else {
        tables_size(s.drop_last()) + table_size(s.last())
    }
}

/// The text of one value: `nil`, `true` or `false`, a number's canonical
/// text, the text itself, or a nested table's rendering.
pub open spec fn render_value(v: ValueModel) -> Seq<char>
    decreases v, 0int,
{
    match v {
        ValueModel::Nil => seq!['n', 'i', 'l'],
        ValueModel::Boolean(b) => if b {
            seq!['t', 'r', 'u', 'e']
        } else {
            seq!['f', 'a', 'l', 's', 'e']
        },
        ValueModel::Number(bits) => crate::numbers::number_text(bits),
        ValueModel::Text(s) => s,
        ValueModel::Table(m) => render_table(m),
    }
}

/// The items of the array part, each rendered, in order.
pub open spec fn rendered_arr(arr: Seq<ValueModel>) -> Seq<Seq<char>>
    decreases arr, 1int,
{
    if arr.len() == 0 {
        Seq::empty()
    } else {
        rendered_arr(arr.drop_last()).push(render_value(arr.last()))
    }
}

/// The entries of the hash part, each rendered as `key: value`, in order.
pub open spec fn rendered_map(map: Seq<(Seq<char>, ValueModel)>) -> Seq<Seq<char>>
    decreases map, 1int,
{
    if map.len() == 0 {
        Seq::empty()
    } else {
        rendered_map(map.drop_last()).push(
            map.last().0 + seq![':', ' '] + render_value(map.last().1),
        )
    }
}

/// Every item of a table, rendered: the array part in insertion order, then
/// the hash part in first-insertion order.
pub open spec fn rendered_items(m: TableModel) -> Seq<Seq<char>>
    decreases m, 1int,
{
    rendered_arr(m.arr) + rendered_map(m.map)
}

/// Items joined with `, ` between them.
pub open spec fn join_items(items: Seq<Seq<char>>) -> Seq<char>
    decreases items.len(),
{
    if items.len() == 0 {
        Seq::empty()
    } else if items.len() == 1 {
        items[0]
    } else {
        join_items(items.drop_last()) + seq![',', ' '] + items.last()
    }
}

/// The text of a table: its items joined with `, ` inside braces.
pub open spec fn render_table(m: TableModel) -> Seq<char>
    decreases m, 2int,
{
    seq!['{'] + join_items(rendered_items(m)) + seq!['}']
}

impl Table {
    /// Creates an empty table.
    pub fn new() -> (t: Table)
        ensures
            table_model(t) == empty_table_model(),
            table_wf(table_model(t)),
    {
        let t = Table { array: Vec::new(), hash: Vec::new() };
        proof {
            assert(table_model(t) =~= empty_table_model());
        }
        t
    }

    /// Appends a value to the end of the array part.
    pub fn add_value(&mut self, value: LuaValue)
        ensures
            table_model(*final(self)).arr
                == table_model(*old(self)).arr.push(value_model(value)),
            table_model(*final(self)).map == table_model(*old(self)).map,
            table_wf(table_model(*old(self))) && value_wf(value_model(value))
                ==> table_wf(table_model(*final(self))),
    {
        let ghost old_arr = self.array@;
        let ghost v = value_model(value);
        self.array.push(value);
        proof {
            assert(self.array@.drop_last() =~= old_arr);
            assert(values_model(self.array@) =~= values_model(old_arr).push(v));
            if table_wf(table_model(*old(self))) && value_wf(v) {
                let m = table_model(*self);
                assert forall|i: int| 0 <= i < m.arr.len() implies value_wf(
                    #[trigger] m.arr[i],
                ) by {
                    if i < m.arr.len() - 1 {
                        assert(m.arr[i] == table_model(*old(self)).arr[i]);
                    }
                }
            }
        }
    }

    /// Upserts an entry in the hash part: last write wins, and the key keeps
    /// its original slot.
    pub fn put_key_value(&mut self, key: LuaKey, value: LuaValue)
        requires
            map_keys_unique(table_model(*old(self)).map),
        ensures
            table_model(*final(self)).arr == table_model(*old(self)).arr,
            table_model(*final(self)).map
                == map_put(table_model(*old(self)).map, key_chars(key), value_model(value)),
            table_wf(table_model(*old(self))) && value_wf(value_model(value))
                ==> table_wf(table_model(*final(self))),
    {
        let ghost m0 = pairs_model(old(self).hash@);
        let ghost kc = key_chars(key);
        let ghost vm = value_model(value);
        proof {
            lemma_pairs_model_len(self.hash@);
        }
        let n = self.hash.len();
        let mut i: usize = 0;
        while i < n
            invariant
                n == self.hash.len(),
                i <= n,
                *self == *old(self),
                m0 == pairs_model(self.hash@),
                m0.len() == n,
                map_keys_unique(m0),
                kc == key_chars(key),
                vm == value_model(value),
                forall|j: int| 0 <= j < i ==> (#[trigger] m0[j]).0 != kc,
            decreases n - i,
        {
            proof {
                lemma_pairs_model_index(self.hash@, i as int);
            }
            let hit = key_eq(&self.hash[i].0, &key);
            if hit {
                proof {
                    lemma_map_first_hit(m0, kc, i as int);
                }
                self.hash[i] = (key, value);
                proof {
                    lemma_pairs_model_update(old(self).hash@, i as int, (key, value));
                    assert(pairs_model(self.hash@) =~= m0.update(i as int, (kc, vm)));
                    assert(table_model(*self).map == map_put(m0, kc, vm));
                    lemma_put_keeps_wf(table_model(*old(self)), table_model(*self), kc, vm);
                }
                return ;
            }
            i = i + 1;
        }
        proof {
            if map_has_key(m0, kc) {
                let w = map_key_index(m0, kc);
                assert(m0[w].0 != kc);
            }
        }
        self.hash.push((key, value));
        proof {
            assert(self.hash@.drop_last() =~= old(self).hash@);
            assert(pairs_model(self.hash@) =~= m0.push((kc, vm)));
            assert(table_model(*self).map == map_put(m0, kc, vm));
            lemma_put_keeps_wf(table_model(*old(self)), table_model(*self), kc, vm);
        }
    }

    /// Renders the table: its items joined with `, ` inside braces, the
    /// array part in insertion order and then the hash part as
    /// `key: value` entries in first-insertion order.
    pub fn render(&self) -> (out: String)
        ensures
            out@ == render_table(table_model(*self)),
        decreases *self, 1int,
    {
        let ghost m = table_model(*self);
        let ghost items = rendered_items(m);
        proof {
            lemma_rendered_arr_len(m.arr);
            lemma_rendered_map_len(m.map);
            lemma_values_model_len(self.array@);
            lemma_pairs_model_len(self.hash@);
            reveal_strlit("{");
            reveal_strlit("}");
            reveal_strlit(", ");
            reveal_strlit(": ");
        }
        let mut out = String::new();
        out.append("{");
        proof {
            assert(out@ =~= seq!['{']);
        }
        let an = self.array.len();
        let hn = self.hash.len();
        let mut i: usize = 0;
        while i < an
            invariant
                an == self.array@.len(),
                i <= an,
                m == table_model(*self),
                items == rendered_items(m),
                items.len() == an + self.hash@.len(),
                m.arr.len() == an,
                out@ =~= seq!['{'] + join_items(items.take(i as int)),
            decreases an - i,
        {
            if i > 0 {
                out.append(", ");
            }
            let piece = value_text(&self.array[i]);
            out.append(piece.as_str());
            proof {
                reveal_strlit(", ");
                lemma_values_model_index(self.array@, i as int);
                lemma_rendered_arr_index(m.arr, i as int);
                assert(items[i as int] == rendered_arr(m.arr)[i as int]);
                assert(piece@ == items[i as int]);
                lemma_join_step(items, i as int);
            }
            i = i + 1;
        }
        let mut j: usize = 0;
        while j < hn
            invariant
                an == self.array@.len(),
                hn == self.hash@.len(),
                j <= hn,
                m == table_model(*self),
                items == rendered_items(m),
                items.len() == an + hn,
                m.arr.len() == an,
                m.map.len() == hn,
                out@ =~= seq!['{'] + join_items(items.take(an + j)),
            decreases hn - j,
        {
            if an > 0 || j > 0 {
                out.append(", ");
            }
            match &self.hash[j].0 {
                LuaKey::Text(ks) => { out.append(ks.as_str()) },
            }
            out.append(": ");
            let piece = value_text(&self.hash[j].1);
            out.append(piece.as_str());
            proof {
                reveal_strlit(", ");
                reveal_strlit(": ");
                let t = an + j;
                lemma_pairs_model_index(self.hash@, j as int);
                lemma_rendered_map_index(m.map, j as int);
                lemma_rendered_arr_len(m.arr);
                assert(items[t as int] == rendered_map(m.map)[j as int]);
                assert(items[t as int] == m.map[j as int].0 + seq![':', ' ']
                    + render_value(m.map[j as int].1));
                lemma_join_step(items, t as int);
                assert(out@ =~= seq!['{'] + join_items(items.take(t + 1)));
            }
            j = j + 1;
        }
        out.append("}");
        proof {
            assert(items.take((an + hn) as int) =~= items);
            assert(out@ =~= render_table(m));
        }
        out
    }

    /// Copies out the numbers of the array part, in order.
    pub fn numeric_array(&self) -> (out: Vec<u64>)
        ensures
            out@ == numeric_projection(table_model(*self).arr),
    {
        let mut out: Vec<u64> = Vec::new();
        let n = self.array.len();
        let mut i: usize = 0;
        proof {
            lemma_values_model_len(self.array@);
            assert(self.array@.take(0) =~= Seq::<LuaValue>::empty());
            assert(values_model(self.array@.take(0)) =~= Seq::<ValueModel>::empty());
        }
        while i < n
            invariant
                n == self.array@.len(),
                i <= n,
                out@ == numeric_projection(values_model(self.array@.take(i as int))),
            decreases n - i,
        {
            let ghost pre_vm = values_model(self.array@.take(i as int));
            let ghost cur = self.array@.take(i as int + 1);
            proof {
                assert(cur.drop_last() =~= self.array@.take(i as int));
                assert(cur.last() == self.array@[i as int]);
                assert(values_model(cur) == pre_vm.push(
                    value_model(self.array@[i as int]),
                ));
                assert(values_model(cur).last() == value_model(self.array@[i as int]));
                assert(values_model(cur).drop_last() =~= pre_vm);
            }
            match &self.array[i] {
                LuaValue::Number(bits) => {
                    proof {
                        assert(value_model(self.array@[i as int]) == ValueModel::Number(
                            *bits,
                        ));
                        assert(numeric_projection(values_model(cur)) == numeric_projection(
                            pre_vm,
                        ).push(*bits));
                    }
                    out.push(*bits)
                },
                _ => {
                    proof {
                        assert(!(value_model(self.array@[i as int]) is Number));
                        assert(numeric_projection(values_model(cur)) == numeric_projection(
                            pre_vm,
                        ));
                    }
                },
            }
            i = i + 1;
        }
        proof {
            assert(self.array@.take(n as int) =~= self.array@);
        }
        out
    }

    /// Replaces the array part wholesale with the given numbers; the hash
    /// part stays as it is.
    pub fn set_numeric_array(&mut self, bits: &Vec<u64>)
        ensures
            table_model(*final(self)).arr == number_values(bits@),
            table_model(*final(self)).map == table_model(*old(self)).map,
            table_wf(table_model(*old(self))) ==> table_wf(table_model(*final(self))),
    {
        let mut arr: Vec<LuaValue> = Vec::new();
        let n = bits.len();
        let mut i: usize = 0;
        proof {
            assert(arr@ =~= Seq::<LuaValue>::empty());
            assert(values_model(arr@) =~= Seq::<ValueModel>::empty());
            assert(bits@.take(0) =~= Seq::<u64>::empty());
            assert(number_values(bits@.take(0)) =~= Seq::<ValueModel>::empty());
        }
        while i < n
            invariant
                n == bits@.len(),
                i <= n,
                arr@.len() == i,
                values_model(arr@) == number_values(bits@.take(i as int)),
            decreases n - i,
        {
            let ghost pre = arr@;
            arr.push(LuaValue::Number(bits[i]));
            proof {
                assert(arr@.drop_last() =~= pre);
                assert(arr@.last() == LuaValue::Number(bits@[i as int]));
                assert(value_model(arr@.last()) == ValueModel::Number(bits@[i as int]));
                assert(values_model(arr@) == values_model(arr@.drop_last()).push(
                    value_model(arr@.last()),
                ));
                assert(values_model(arr@.drop_last()) == values_model(pre));
                assert(bits@.take(i as int + 1).drop_last() =~= bits@.take(i as int));
                assert(bits@.take(i as int + 1).last() == bits@[i as int]);
                assert(number_values(bits@.take(i as int + 1)) == number_values(
                    bits@.take(i as int),
                ).push(ValueModel::Number(bits@[i as int])));
            }
            i = i + 1;
        }
        proof {
            assert(bits@.take(n as int) =~= bits@);
        }
        self.array = arr;
        proof {
            if table_wf(table_model(*old(self))) {
                lemma_number_values_wf(bits@);
            }
        }
    }
}

/// Number values are always well formed.
proof fn lemma_number_values_wf(bs: Seq<u64>)
    ensures
        number_values(bs).len() == bs.len(),
        forall|i: int| 0 <= i < bs.len() ==> value_wf(#[trigger] number_values(bs)[i]),
    decreases bs,
{
    if bs.len() > 0 {
        lemma_number_values_wf(bs.drop_last());
        assert forall|i: int| 0 <= i < bs.len() implies value_wf(
            #[trigger] number_values(bs)[i],
        ) by {
            if i < bs.len() - 1 {
                assert(number_values(bs)[i] == number_values(bs.drop_last())[i]);
            } else {
                assert(number_values(bs)[i] == ValueModel::Number(bs.last()));
            }
        }
    }
}

/// Renders one value: `nil`, `true` or `false`, a number's canonical text,
/// the text itself, or a nested table's rendering.
pub fn value_text(v: &LuaValue) -> (out: String)
    ensures
        out@ == render_value(value_model(*v)),
    decreases *v, 0int,
{
    match v {
        LuaValue::Nil => {
            let s = String::from_str("nil");
            proof {
                reveal_strlit("nil");
                assert(s@ =~= seq!['n', 'i', 'l']);
            }
            s
        },
        LuaValue::Boolean(b) => {
            if *b {
                let s = String::from_str("true");
                proof {
                    reveal_strlit("true");
                    assert(s@ =~= seq!['t', 'r', 'u', 'e']);
                }
                s
            } else {
                let s = String::from_str("false");
                proof {
                    reveal_strlit("false");
                    assert(s@ =~= seq!['f', 'a', 'l', 's', 'e']);
                }
                s
            }
        },
        LuaValue::Number(bits) => crate::numbers::format_number(*bits),
        LuaValue::Text(s) => {
            let r = String::from_str(s.as_str());
            r
        },
        LuaValue::Table(t) => t.render(),
    }
}

/// Whether two keys hold the same characters.
pub fn key_eq(a: &LuaKey, b: &LuaKey) -> (r: bool)
    ensures
        r == (key_chars(*a) == key_chars(*b)),
{
    match a {
        LuaKey::Text(x) => match b {
            LuaKey::Text(y) => {
                let r = x.eq(y);
                proof {
                    assert(key_chars(*a) == x@);
                    assert(key_chars(*b) == y@);
                }
                r
            },
        },
    }
}

/// After an upsert on a well-formed table, the table is still well formed.
proof fn lemma_put_keeps_wf(m0: TableModel, m1: TableModel, kc: Seq<char>, vm: ValueModel)
    requires
        map_keys_unique(m0.map),
        m1.arr == m0.arr,
        m1.map == map_put(m0.map, kc, vm),
    ensures
        table_wf(m0) && value_wf(vm) ==> table_wf(m1),
{
    if table_wf(m0) && value_wf(vm) {
        lemma_map_put_wf(m0.map, kc, vm);
        assert forall|i: int| 0 <= i < m1.map.len() implies value_wf(
            (#[trigger] m1.map[i]).1,
        ) by {
            if map_has_key(m0.map, kc) {
                if i != map_key_index(m0.map, kc) {
                    assert(m1.map[i] == m0.map[i]);
                }
            } else {
                if i < m0.map.len() {
                    assert(m1.map[i] == m0.map[i]);
                }
            }
        }
    }
}

/// The rendered array part has one item per value, each value's text at the
/// value's own index.
pub proof fn lemma_rendered_arr_index(arr: Seq<ValueModel>, i: int)
    requires
        0 <= i < arr.len(),
    ensures
        rendered_arr(arr).len() == arr.len(),
        rendered_arr(arr)[i] == render_value(arr[i]),
    decreases arr,
{
    lemma_rendered_arr_len(arr);
    if i < arr.len() - 1 {
        lemma_rendered_arr_index(arr.drop_last(), i);
        assert(arr.drop_last()[i] == arr[i]);
    }
}

/// The rendered array part has one item per value.
pub proof fn lemma_rendered_arr_len(arr: Seq<ValueModel>)
    ensures
        rendered_arr(arr).len() == arr.len(),
    decreases arr,
{
    if arr.len() > 0 {
        lemma_rendered_arr_len(arr.drop_last());
    }
}

/// The rendered hash part has one item per entry, each entry's
/// `key: value` text at the entry's own index.
pub proof fn lemma_rendered_map_index(map: Seq<(Seq<char>, ValueModel)>, i: int)
    requires
        0 <= i < map.len(),
    ensures
        rendered_map(map).len() == map.len(),
        rendered_map(map)[i] == map[i].0 + seq![':', ' '] + render_value(map[i].1),
    decreases map,
{
    lemma_rendered_map_len(map);
    if i < map.len() - 1 {
        lemma_rendered_map_index(map.drop_last(), i);
        assert(map.drop_last()[i] == map[i]);
    }
}

/// The rendered hash part has one item per entry.
pub proof fn lemma_rendered_map_len(map: Seq<(Seq<char>, ValueModel)>)
    ensures
        rendered_map(map).len() == map.len(),
    decreases map,
{
    if map.len() > 0 {
        lemma_rendered_map_len(map.drop_last());
    }
}

/// Joining one more item appends a separator, except before the first.
pub proof fn lemma_join_step(items: Seq<Seq<char>>, t: int)
    requires
        0 <= t < items.len(),
    ensures
        join_items(items.take(t + 1)) == if t == 0 {
            items[0]
        } else {
            join_items(items.take(t)) + seq![',', ' '] + items[t]
        },
{
    let a = items.take(t + 1);
    assert(a.len() == t + 1);
    if t == 0 {
        assert(join_items(a) == a[0]);
        assert(a[0] == items[0]);
    } else {
        assert(a.drop_last() =~= items.take(t));
        assert(a.last() == items[t]);
    }
}

/// The model of a sequence of entries has the same length, and each entry's
/// model stands at the entry's own index.
pub proof fn lemma_pairs_model_index(s: Seq<(LuaKey, LuaValue)>, i: int)
    requires
        0 <= i < s.len(),
    ensures
        pairs_model(s).len() == s.len(),
        pairs_model(s)[i] == (key_chars(s[i].0), value_model(s[i].1)),
    decreases s,
{
    lemma_pairs_model_len(s);
    if i < s.len() - 1 {
        lemma_pairs_model_index(s.drop_last(), i);
        assert(s.drop_last()[i] == s[i]);
    }
}

/// Updating one entry updates the model at the same index and nowhere else.
pub proof fn lemma_pairs_model_update(s: Seq<(LuaKey, LuaValue)>, i: int, e: (LuaKey, LuaValue))
    requires
        0 <= i < s.len(),
    ensures
        pairs_model(s.update(i, e))
            =~= pairs_model(s).update(i, (key_chars(e.0), value_model(e.1))),
    decreases s,
{
    let su = s.update(i, e);
    lemma_pairs_model_len(s);
    lemma_pairs_model_len(su);
    assert forall|j: int| 0 <= j < s.len() implies pairs_model(su)[j]
        == pairs_model(s).update(i, (key_chars(e.0), value_model(e.1)))[j] by {
        lemma_pairs_model_index(su, j);
        lemma_pairs_model_index(s, j);
    }
}

/// The model of a sequence of entries has the sequence's length.
pub proof fn lemma_pairs_model_len(s: Seq<(LuaKey, LuaValue)>)
    ensures
        pairs_model(s).len() == s.len(),
    decreases s,
{
    if s.len() > 0 {
        lemma_pairs_model_len(s.drop_last());
    }
}

/// The model of a sequence of values has the sequence's length, and each
/// value's model stands at the value's own index.
pub proof fn lemma_values_model_index(s: Seq<LuaValue>, i: int)
    requires
        0 <= i < s.len(),
    ensures
        values_model(s).len() == s.len(),
        values_model(s)[i] == value_model(s[i]),
    decreases s,
{
    lemma_values_model_len(s);
    if i < s.len() - 1 {
        lemma_values_model_index(s.drop_last(), i);
        assert(s.drop_last()[i] == s[i]);
    }
}

/// The model of a sequence of values has the sequence's length.
pub proof fn lemma_values_model_len(s: Seq<LuaValue>)
    ensures
        values_model(s).len() == s.len(),
    decreases s,
{
    if s.len() > 0 {
        lemma_values_model_len(s.drop_last());
    }
}

/// If no entry before `i` has key `k` and the entry at `i` has key `k`, then
/// `i` is the entry the upsert overwrites.
proof fn lemma_map_first_hit(m: Seq<(Seq<char>, ValueModel)>, k: Seq<char>, i: int)
    requires
        0 <= i < m.len(),
        m[i].0 == k,
        forall|j: int| 0 <= j < i ==> (#[trigger] m[j]).0 != k,
        map_keys_unique(m),
    ensures
        map_has_key(m, k),
        map_key_index(m, k) == i,
{
    assert(map_has_key(m, k));
    let w = map_key_index(m, k);
    if w != i {
        if w < i {
            assert(m[w].0 != k);
        } else {
            assert(m[i].0 != m[w].0);
        }
    }
}

/// Tears a table tree down iteratively, so that releasing a deeply nested
/// tree does not recurse with it: every owned descendant is reached exactly
/// once through an explicit worklist and dropped with its slot.
pub fn dispose(t: Table) {
    let mut work: Vec<Table> = Vec::new();
    let ghost t_size = table_size(t);
    work.push(t);
    proof {
        assert(work@.drop_last() =~= Seq::<Table>::empty());
        assert(tables_size(Seq::<Table>::empty()) == 0);
        assert(work@.last() == t);
        assert(tables_size(work@) == tables_size(work@.drop_last()) + table_size(
            work@.last(),
        ));
        assert(tables_size(work@) == t_size);
    }
    while work.len() > 0
        decreases tables_size(work@),
    {
        let ghost w_pre = work@;
        let cur = work.pop().unwrap();
        let mut array = cur.array;
        let mut hash = cur.hash;
        let ghost bound = tables_size(w_pre) - 1;
        proof {
            assert(w_pre.drop_last() =~= work@);
            assert(tables_size(w_pre) == tables_size(work@) + table_size(w_pre.last()));
            assert(tables_size(work@) + values_size(array@) + pairs_size(hash@) <= bound);
        }
        while array.len() > 0
            invariant
                tables_size(work@) + values_size(array@) + pairs_size(hash@) <= bound,
            decreases array@.len(),
        {
            let ghost a_pre = array@;
            let v = array.pop().unwrap();
            proof {
                assert(a_pre.drop_last() =~= array@);
                assert(values_size(a_pre) == values_size(array@) + value_size(
                    a_pre.last(),
                ));
            }
            match v {
                LuaValue::Table(inner) => {
                    let ghost w0 = work@;
                    work.push(inner);
                    proof {
                        assert(work@.drop_last() =~= w0);
                        assert(tables_size(work@) == tables_size(w0) + table_size(
                            work@.last(),
                        ));
                    }
                },
                _ => {},
            }
        }
        while hash.len() > 0
            invariant
                tables_size(work@) + pairs_size(hash@) <= bound,
            decreases hash@.len(),
        {
            let ghost h_pre = hash@;
            let e = hash.pop().unwrap();
            proof {
                assert(h_pre.drop_last() =~= hash@);
                assert(pairs_size(h_pre) == pairs_size(hash@) + value_size(
                    h_pre.last().1,
                ));
            }
            match e.1 {
                LuaValue::Table(inner) => {
                    let ghost w0 = work@;
                    work.push(inner);
                    proof {
                        assert(work@.drop_last() =~= w0);
                        assert(tables_size(work@) == tables_size(w0) + table_size(
                            work@.last(),
                        ));
                    }
                },
                _ => {},
            }
        }
        proof {
            assert(tables_size(work@) <= bound);
        }
    }
}

/// The upsert keeps keys unique, keeps every other entry, and leaves the
/// entry for the key holding exactly the new value.
pub proof fn lemma_map_put_wf(m: Seq<(Seq<char>, ValueModel)>, k: Seq<char>, v: ValueModel)
    requires
        map_keys_unique(m),
    ensures
        map_keys_unique(map_put(m, k, v)),
        map_has_key(map_put(m, k, v), k),
{
    let r = map_put(m, k, v);
    if map_has_key(m, k) {
        let i = map_key_index(m, k);
        assert(r[i].0 == k);
        assert(map_has_key(r, k));
    } else {
        assert(r[m.len() as int].0 == k);
        assert(map_has_key(r, k));
        assert forall|i: int, j: int| 0 <= i < j < r.len() implies (#[trigger] r[i]).0 != (
        #[trigger] r[j]).0 by {
            if j < m.len() {
                assert(m[i].0 != m[j].0);
            } else {
                assert(r[j].0 == k);
                assert(m[i].0 != k);
            }
        }
    }
}

/// Law: importing numbers and projecting them back returns them unchanged,
/// in order.
pub proof fn lemma_numeric_round_trip(bs: Seq<u64>)
    ensures
        numeric_projection(number_values(bs)) == bs,
    decreases bs,
{
    if bs.len() == 0 {
        assert(numeric_projection(number_values(bs)) =~= bs);
    } else {
        lemma_numeric_round_trip(bs.drop_last());
        let nv = number_values(bs);
        assert(nv.drop_last() =~= number_values(bs.drop_last()));
        assert(nv.last() == ValueModel::Number(bs.last()));
        assert(numeric_projection(nv) == numeric_projection(nv.drop_last()).push(
            bs.last(),
        ));
        assert(numeric_projection(nv) =~= bs);
    }
}

/// A well-formed hash part holds the key at the index the upsert wrote, and
/// nowhere else.
proof fn lemma_key_index_unique(m: Seq<(Seq<char>, ValueModel)>, k: Seq<char>, i: int)
    requires
        map_keys_unique(m),
        0 <= i < m.len(),
        m[i].0 == k,
    ensures
        map_has_key(m, k),
        map_key_index(m, k) == i,
{
    assert(map_has_key(m, k));
    let w = map_key_index(m, k);
    if w < i {
        assert(m[w].0 != m[i].0);
    } else if w > i {
        assert(m[i].0 != m[w].0);
    }
}

/// Law: last write wins. On a table whose keys are unique, putting the same
/// key twice leaves exactly what putting only the second value leaves.
pub proof fn lemma_put_last_write_wins(
    m: Seq<(Seq<char>, ValueModel)>,
    k: Seq<char>,
    v1: ValueModel,
    v2: ValueModel,
)
    requires
        map_keys_unique(m),
    ensures
        map_put(map_put(m, k, v1), k, v2) == map_put(m, k, v2),
{
    let m1 = map_put(m, k, v1);
    lemma_map_put_wf(m, k, v1);
    if map_has_key(m, k) {
        let i = map_key_index(m, k);
        assert(m1[i].0 == k);
        lemma_key_index_unique(m1, k, i);
        assert(map_put(m1, k, v2) =~= map_put(m, k, v2));
    } else {
        let i = m.len() as int;
        assert(m1[i].0 == k);
        lemma_key_index_unique(m1, k, i);
        assert(map_put(m1, k, v2) =~= map_put(m, k, v2));
    }
}

/// Law: after an upsert, the hash part holds exactly the new value for that
/// key, and every other key's entry is untouched.
pub proof fn lemma_put_get(m: Seq<(Seq<char>, ValueModel)>, k: Seq<char>, v: ValueModel)
    requires
        map_keys_unique(m),
    ensures
        map_has_key(map_put(m, k, v), k),
        map_get(map_put(m, k, v), k) == v,
        forall|j: int|
            0 <= j < m.len() && (#[trigger] m[j]).0 != k ==> map_put(m, k, v)[j] == m[j],
{
    let r = map_put(m, k, v);
    if map_has_key(m, k) {
        let i = map_key_index(m, k);
        assert(r[i].0 == k);
        lemma_key_index_unique(r, k, i);
    } else {
        let i = m.len() as int;
        assert(r[i].0 == k);
        lemma_map_put_wf(m, k, v);
        lemma_key_index_unique(r, k, i);
    }
}

/// Law: the rendering lists the array part in exactly insertion order: item
/// `i` of a table's rendered items is the text of the value appended
/// `i`th, and the hash part's items follow behind all of them.
pub proof fn lemma_render_insertion_order(m: TableModel)
    ensures
        rendered_items(m).len() == m.arr.len() + m.map.len(),
        forall|i: int|
            0 <= i < m.arr.len() ==> rendered_items(m)[i] == render_value(#[trigger] m.arr[i]),
        forall|j: int|
            0 <= j < m.map.len() ==> rendered_items(m)[m.arr.len() + j] == (
            #[trigger] m.map[j]).0 + seq![':', ' '] + render_value(m.map[j].1),
{
    lemma_rendered_arr_len(m.arr);
    lemma_rendered_map_len(m.map);
    assert forall|i: int| 0 <= i < m.arr.len() implies rendered_items(m)[i] == render_value(
        #[trigger] m.arr[i],
    ) by {
        lemma_rendered_arr_index(m.arr, i);
    }
    assert forall|j: int| 0 <= j < m.map.len() implies rendered_items(m)[m.arr.len() + j] == (
    #[trigger] m.map[j]).0 + seq![':', ' '] + render_value(m.map[j].1) by {
        lemma_rendered_map_index(m.map, j);
    }
}

/// A join holds every one of its items as a contiguous piece.
pub proof fn lemma_join_contains(items: Seq<Seq<char>>, t: int)
    requires
        0 <= t < items.len(),
    ensures
        exists|off: int|
            0 <= off && off + items[t].len() <= join_items(items).len()
                && #[trigger] join_items(items).subrange(off, off + items[t].len())
                == items[t],
    decreases items.len(),
{
    let joined = join_items(items);
    let w: int;
    if items.len() == 1 {
        assert(joined == items[0]);
        w = 0;
        assert(joined.subrange(w, w + items[t].len()) =~= items[t]);
    } else if t == items.len() - 1 {
        let prefix = join_items(items.drop_last()) + seq![',', ' '];
        assert(joined == prefix + items.last());
        w = prefix.len() as int;
        assert(joined.subrange(w, w + items[t].len()) =~= items[t]);
    } else {
        lemma_join_contains(items.drop_last(), t);
        assert(items.drop_last()[t] == items[t]);
        let sub = join_items(items.drop_last());
        w = choose|off: int|
            0 <= off && off + items[t].len() <= sub.len() && #[trigger] sub.subrange(
                off,
                off + items[t].len(),
            ) == items[t];
        assert(joined == sub + seq![',', ' '] + items.last());
        assert(joined.subrange(w, w + items[t].len()) =~= sub.subrange(
            w,
            w + items[t].len(),
        ));
    }
    assert(0 <= w && w + items[t].len() <= joined.len() && joined.subrange(
        w,
        w + items[t].len(),
    ) == items[t]);
}

/// Law: an adopted child's whole rendering stands inside its parent's
/// rendering: the child subtree stays reachable from the parent.
pub proof fn lemma_child_render_reachable(p: TableModel, idx: int, c: TableModel)
    requires
        0 <= idx < p.arr.len(),
        p.arr[idx] == ValueModel::Table(c),
    ensures
        exists|off: int|
            0 <= off && off + render_table(c).len() <= render_table(p).len()
                && #[trigger] render_table(p).subrange(off, off + render_table(c).len())
                == render_table(c),
{
    let items = rendered_items(p);
    lemma_render_insertion_order(p);
    assert(items[idx] == render_value(ValueModel::Table(c)));
    assert(items[idx] == render_table(c));
    lemma_join_contains(items, idx);
    let joined = join_items(items);
    let off0 = choose|off: int|
        0 <= off && off + items[idx].len() <= joined.len() && #[trigger] joined.subrange(
            off,
            off + items[idx].len(),
        ) == items[idx];
    let off = off0 + 1;
    assert(render_table(p) == seq!['{'] + joined + seq!['}']);
    assert(render_table(p).subrange(off, off + render_table(c).len()) =~= joined.subrange(
        off0,
        off0 + items[idx].len(),
    ));
}

} // verus!
