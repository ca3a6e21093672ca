//! Values that can be tuned while a server runs.
//!
//! A set of tunables has fixed fields, each with a name. A configuration gives new values by
//! name: fields that it does not name keep their values, and names that are no fields are
//! passed over.

use once_cell::sync::OnceCell;
use vstd::prelude::*;

pub use vstd::hash_map::StringHashMap;

verus! {

/// How long to wait before the configuration is looked at again.
pub const REFRESH_INTERVAL_SECONDS: u64 = 5;

/// The name of [`MononokeTunables`]'s field.
pub const WARM_BOOKMARK_CACHE_DELAY: &'static str = "warm_bookmark_cache_delay";

/// The fields after new values have come in.
pub open spec fn updated<V>(fields: Seq<(Seq<char>, V)>, values: Map<Seq<char>, V>) -> Seq<
    (Seq<char>, V),
> {
    Seq::new(
        fields.len(),
        |i: int|
            (
                fields[i].0,
                if values.contains_key(fields[i].0) {
                    values[fields[i].0]
                } else {
                    fields[i].1
                },
            ),
    )
}

/// The value of the first field with the name `name`.
pub open spec fn field_value<V>(fields: Seq<(Seq<char>, V)>, name: Seq<char>) -> Option<V>
    decreases fields.len(),
{
    if fields.len() == 0 {
        None
    } else if fields[0].0 == name {
        Some(fields[0].1)
    } else {
        field_value(fields.skip(1), name)
    }
}

/// Fields with the names `names`, all with the value `value`.
pub open spec fn fields_with<V>(names: Seq<String>, value: V) -> Seq<(Seq<char>, V)> {
    Seq::new(names.len(), |i: int| (names[i]@, value))
}

/// Named fields of one type.
#[derive(Debug)]
struct Fields<V> {
    entries: Vec<(String, V)>,
}

impl<V> View for Fields<V> {
    type V = Seq<(Seq<char>, V)>;

    closed spec fn view(&self) -> Seq<(Seq<char>, V)> {
        self.entries@.map_values(|entry: (String, V)| (entry.0@, entry.1))
    }
}

impl<V: Copy> Fields<V> {
    fn new(names: Vec<String>, value: V) -> (fields: Self)
        ensures
            fields@ == fields_with(names@, value),
    {
        let mut entries: Vec<(String, V)> = Vec::new();
        let mut i: usize = 0;
        while i < names.len()
            invariant
                i <= names@.len(),
                entries@.len() == i,
                forall|j: int|
                    0 <= j < i ==> (#[trigger] entries@[j]).0@ == names@[j]@ && entries@[j].1
                        == value,
            decreases names@.len() - i,
        {
            entries.push((names[i].clone(), value));
            i = i + 1;
        }
        let fields: Fields<V> = Fields { entries };
        assert(fields@ =~= fields_with(names@, value));
        fields
    }

    fn get(&self, name: &str) -> (res: Option<V>)
        ensures
            res == field_value(self@, name@),
    {
        let wanted: String = name.to_string();
        let mut i: usize = 0;
        assert(self@.skip(0) =~= self@);
        while i < self.entries.len()
            invariant
                i <= self.entries@.len(),
                wanted@ == name@,
                field_value(self@, name@) == field_value(self@.skip(i as int), name@),
            decreases self.entries@.len() - i,
        {
            assert(self@.skip(i as int)[0] == self@[i as int]);
            assert(self@.skip(i as int).skip(1) =~= self@.skip(i + 1));
            if self.entries[i].0 == wanted {
                return Some(self.entries[i].1);
            }
            i = i + 1;
        }
        None
    }

    fn update(&mut self, values: &StringHashMap<V>)
        ensures
            final(self)@ == updated(old(self)@, values@),
    {
        let ghost before = self@;
        let mut i: usize = 0;
        while i < self.entries.len()
            invariant
                i <= self.entries@.len(),
                self.entries@.len() == before.len(),
                forall|j: int| 0 <= j < i ==> #[trigger] self@[j] == updated(before, values@)[j],
                forall|j: int| i <= j < before.len() ==> #[trigger] self@[j] == before[j],
            decreases self.entries@.len() - i,
        {
            let name: String = self.entries[i].0.clone();
            assert(self@[i as int] == (self.entries@[i as int].0@, self.entries@[i as int].1));
            match values.get(name.as_str()) {
                Some(value) => {
                    let ghost entries = self.entries@;
                    let ghost middle = self@;
                    self.entries.set(i, (name, *value));
                    assert forall|j: int| 0 <= j < before.len() && j != i implies #[trigger] self@[j]
                        == middle[j] by {
                        assert(self.entries@[j] == entries[j]);
                    }
                    assert(self@[i as int] == (self.entries@[i as int].0@, *value));
                },
                None => {},
            }
            assert(self@[i as int] == updated(before, values@)[i as int]);
            i = i + 1;
        }
        assert(self@ =~= updated(before, values@));
    }
}

/// A set of tunables: named switches and named numbers.
#[derive(Debug)]
pub struct TunableFields {
    bools: Fields<bool>,
    ints: Fields<i64>,
}

impl TunableFields {
    /// The switches by name.
    pub closed spec fn bools(&self) -> Seq<(Seq<char>, bool)> {
        self.bools@
    }

    /// The numbers by name.
    pub closed spec fn ints(&self) -> Seq<(Seq<char>, i64)> {
        self.ints@
    }

    /// Tunables with the given names: switches that are off and numbers that are zero.
    pub fn new(bool_names: Vec<String>, int_names: Vec<String>) -> (fields: Self)
        ensures
            fields.bools() == fields_with(bool_names@, false),
            fields.ints() == fields_with(int_names@, 0i64),
    {
        TunableFields { bools: Fields::new(bool_names, false), ints: Fields::new(int_names, 0i64) }
    }

    /// The switch `name`.
    pub fn get_bool(&self, name: &str) -> (res: Option<bool>)
        ensures
            res == field_value(self.bools(), name@),
    {
        self.bools.get(name)
    }

    /// The number `name`.
    pub fn get_int(&self, name: &str) -> (res: Option<i64>)
        ensures
            res == field_value(self.ints(), name@),
    {
        self.ints.get(name)
    }

    /// Takes new values for switches.
    pub fn update_bools(&mut self, values: &StringHashMap<bool>)
        ensures
            final(self).bools() == updated(old(self).bools(), values@),
            final(self).ints() == old(self).ints(),
    {
        self.bools.update(values);
    }

    /// Takes new values for numbers.
    pub fn update_ints(&mut self, values: &StringHashMap<i64>)
        ensures
            final(self).bools() == old(self).bools(),
            final(self).ints() == updated(old(self).ints(), values@),
    {
        self.ints.update(values);
    }
}

/// The tunables of Mononoke.
#[derive(Debug)]
pub struct MononokeTunables {
    fields: TunableFields,
}

/// The values of [`MononokeTunables`].
pub struct MononokeTunablesModel {
    pub warm_bookmark_cache_delay: i64,
}

impl View for MononokeTunables {
    type V = MononokeTunablesModel;

    closed spec fn view(&self) -> MononokeTunablesModel {
        MononokeTunablesModel { warm_bookmark_cache_delay: self.fields.ints()[0].1 }
    }
}

impl MononokeTunables {
    #[verifier::type_invariant]
    spec fn wf(self) -> bool {
        &&& self.fields.bools() == Seq::<(Seq<char>, bool)>::empty()
        &&& self.fields.ints().len() == 1
        &&& self.fields.ints()[0].0 == WARM_BOOKMARK_CACHE_DELAY@
    }

    /// The fields of Mononoke's tunables, as they are at first.
    fn initial_fields() -> (fields: TunableFields)
        ensures
            fields.bools() == Seq::<(Seq<char>, bool)>::empty(),
            fields.ints() == seq![(WARM_BOOKMARK_CACHE_DELAY@, 0i64)],
    {
        let bool_names: Vec<String> = Vec::new();
        let mut int_names: Vec<String> = Vec::new();
        int_names.push(WARM_BOOKMARK_CACHE_DELAY.to_string());
        assert(fields_with(bool_names@, false) =~= Seq::<(Seq<char>, bool)>::empty());
        assert(fields_with(int_names@, 0i64) =~= seq![(WARM_BOOKMARK_CACHE_DELAY@, 0i64)]);
        TunableFields::new(bool_names, int_names)
    }

    /// How long the warm bookmark cache waits.
    pub fn get_warm_bookmark_cache_delay(&self) -> (res: i64)
        ensures
            res == self@.warm_bookmark_cache_delay,
    {
        proof {
            use_type_invariant(self);
        }
        self.fields.get_int(WARM_BOOKMARK_CACHE_DELAY).unwrap()
    }

    /// Takes new values for switches, of which there are none.
    pub fn update_bools(&mut self, values: &StringHashMap<bool>)
        ensures
            final(self)@ == old(self)@,
    {
        proof {
            use_type_invariant(&*self);
        }
        let mut fields: TunableFields = Self::initial_fields();
        std::mem::swap(&mut fields, &mut self.fields);
        fields.update_bools(values);
        assert(fields.bools() =~= Seq::<(Seq<char>, bool)>::empty());
        self.fields = fields;
    }

    /// Takes new values for numbers.
    pub fn update_ints(&mut self, values: &StringHashMap<i64>)
        ensures
            final(self)@ == old(self)@.with_ints(values@),
    {
        proof {
            use_type_invariant(&*self);
        }
        let mut fields: TunableFields = Self::initial_fields();
        std::mem::swap(&mut fields, &mut self.fields);
        fields.update_ints(values);
        self.fields = fields;
    }
}

impl MononokeTunablesModel {
    /// The values after new numbers have come in.
    pub open spec fn with_ints(self, values: Map<Seq<char>, i64>) -> Self {
        MononokeTunablesModel {
            warm_bookmark_cache_delay: if values.contains_key(WARM_BOOKMARK_CACHE_DELAY@) {
                values[WARM_BOOKMARK_CACHE_DELAY@]
            } else {
                self.warm_bookmark_cache_delay
            },
        }
    }
}

impl Default for MononokeTunables {
    fn default() -> (tunables: Self)
        ensures
            tunables@ == initial_tunables(),
    {
        MononokeTunables { fields: Self::initial_fields() }
    }
}

/// The values that Mononoke's tunables have at first.
pub open spec fn initial_tunables() -> MononokeTunablesModel {
    MononokeTunablesModel { warm_bookmark_cache_delay: 0 }
}

/// A cell of the once_cell crate.
#[verifier::external_type_specification]
#[verifier::external_body]
#[verifier::reject_recursive_types(T)]
pub struct ExOnceCell<T>(OnceCell<T>);

/// The values of the tunables that a cell holds; `None` as long as it was not filled.
pub uninterp spec fn cell_contents(cell: OnceCell<MononokeTunables>) -> Option<
    MononokeTunablesModel,
>;

/// Calls `OnceCell::get_or_init` with [`MononokeTunables::default`]. A cell that was filled
/// keeps what it holds; an empty one is filled with what the function returns.
#[verifier::external_body]
fn fill_cell(cell: &mut OnceCell<MononokeTunables>)
    ensures
        match cell_contents(*old(cell)) {
            Some(values) => cell_contents(*final(cell)) == Some(values),
            None => cell_contents(*final(cell)) == Some(initial_tunables()),
        },
{
    cell.get_or_init(MononokeTunables::default);
}

/// Calls `OnceCell::get_mut`. It gives access to what the cell holds, or `None` if the cell
/// is empty.
#[verifier::external_body]
fn open_cell(cell: &mut OnceCell<MononokeTunables>) -> (res: Option<&mut MononokeTunables>)
    ensures
        match res {
            Some(tunables) => {
                &&& cell_contents(*old(cell)) == Some(tunables@)
                &&& cell_contents(*final(cell)) == Some(final(tunables)@)
            },
            None => {
                &&& cell_contents(*old(cell)) is None
                &&& cell_contents(*final(cell)) is None
            },
        },
{
    cell.get_mut()
}

/// The values that a cell with `contents` holds, or will once it is asked for them.
pub open spec fn contents_values(contents: Option<MononokeTunablesModel>) -> MononokeTunablesModel {
    match contents {
        Some(values) => values,
        None => initial_tunables(),
    }
}

/// The values that stand in `cell`, or that will once it is asked for them.
pub open spec fn cell_values(cell: OnceCell<MononokeTunables>) -> MononokeTunablesModel {
    contents_values(cell_contents(cell))
}

/// The tunables in `cell`, which are put there when they are first asked for.
pub fn tunables(cell: &mut OnceCell<MononokeTunables>) -> (res: &mut MononokeTunables)
    ensures
        res@ == cell_values(*old(cell)),
        cell_contents(*final(cell)) == Some(final(res)@),
{
    fill_cell(cell);
    open_cell(cell).unwrap()
}

/// A configuration: new values by name.
pub struct TunablesStruct {
    pub killswitches: StringHashMap<bool>,
    pub ints: StringHashMap<i64>,
}

/// Takes the values of a configuration into the tunables in `cell`.
pub fn update_tunables(
    cell: &mut OnceCell<MononokeTunables>,
    new_tunables: &TunablesStruct,
) -> (res: Result<(), String>)
    ensures
        res is Ok,
        cell_contents(*final(cell)) == Some(
            cell_values(*old(cell)).with_ints(new_tunables.ints@),
        ),
{
    let tunables: &mut MononokeTunables = tunables(cell);
    tunables.update_bools(&new_tunables.killswitches);
    tunables.update_ints(&new_tunables.ints);
    Ok(())
}

/// What a cell of tunables was used for.
pub enum CellUse {
    /// The tunables were asked for, and not written to.
    Ask,
    /// A configuration with these numbers came in.
    Update(Map<Seq<char>, i64>),
}

/// What a cell that holds `contents` holds after `uses`.
pub open spec fn contents_after(
    contents: Option<MononokeTunablesModel>,
    uses: Seq<CellUse>,
) -> Option<MononokeTunablesModel>
    decreases uses.len(),
{
    if uses.len() == 0 {
        contents
    } else {
        let values = contents_values(contents_after(contents, uses.drop_last()));
        match uses.last() {
            CellUse::Ask => Some(values),
            CellUse::Update(ints) => Some(values.with_ints(ints)),
        }
    }
}

/// The configurations among `uses`.
pub open spec fn updates_among(uses: Seq<CellUse>) -> Seq<Map<Seq<char>, i64>>
    decreases uses.len(),
{
    if uses.len() == 0 {
        Seq::empty()
    } else {
        match uses.last() {
            CellUse::Ask => updates_among(uses.drop_last()),
            CellUse::Update(ints) => updates_among(uses.drop_last()).push(ints),
        }
    }
}

/// `values` after `updates`, one after the other.
pub open spec fn values_after(
    values: MononokeTunablesModel,
    updates: Seq<Map<Seq<char>, i64>>,
) -> MononokeTunablesModel
    decreases updates.len(),
{
    if updates.len() == 0 {
        values
    } else {
        values_after(values, updates.drop_last()).with_ints(updates.last())
    }
}

/// However often the tunables are asked for, and between whichever updates: all who ask see
/// the values that the updates so far have left. Asking never changes or resets a value.
pub proof fn law_asking_changes_nothing(contents: Option<MononokeTunablesModel>, uses: Seq<CellUse>)
    ensures
        contents_values(contents_after(contents, uses)) == values_after(
            contents_values(contents),
            updates_among(uses),
        ),
    decreases uses.len(),
{
    if uses.len() > 0 {
        let front = uses.drop_last();
        law_asking_changes_nothing(contents, front);
        match uses.last() {
            CellUse::Ask => {},
            CellUse::Update(ints) => {
                let updates = updates_among(front);
                assert(updates.push(ints).drop_last() =~= updates);
            },
        }
    }
}

/// After an update a field has the value that was given under its name, or else its old
/// value; a name that was no field is none afterwards.
pub proof fn law_update_sets_what_is_named<V>(
    fields: Seq<(Seq<char>, V)>,
    values: Map<Seq<char>, V>,
    name: Seq<char>,
)
    ensures
        field_value(updated(fields, values), name) == match field_value(fields, name) {
            Some(value) => if values.contains_key(name) {
                Some(values[name])
            } else {
                Some(value)
            },
            None => None,
        },
    decreases fields.len(),
{
    if fields.len() > 0 {
        assert(updated(fields, values).skip(1) =~= updated(fields.skip(1), values));
        law_update_sets_what_is_named(fields.skip(1), values, name);
    }
}

/// An update that names no field changes nothing.
pub proof fn law_unknown_names_change_nothing<V>(
    fields: Seq<(Seq<char>, V)>,
    values: Map<Seq<char>, V>,
)
    requires
        forall|i: int|
            0 <= i < fields.len() ==> !values.contains_key((#[trigger] fields[i]).0),
    ensures
        updated(fields, values) == fields,
{
    assert(updated(fields, values) =~= fields);
}

/// Of two updates the later one counts wherever both name a field. In particular an update
/// that is repeated changes nothing.
pub proof fn law_later_update_counts<V>(
    fields: Seq<(Seq<char>, V)>,
    first: Map<Seq<char>, V>,
    second: Map<Seq<char>, V>,
)
    ensures
        updated(updated(fields, first), second) == updated(
            fields,
            first.union_prefer_right(second),
        ),
        updated(updated(fields, first), first) == updated(fields, first),
{
    assert(updated(updated(fields, first), second) =~= updated(
        fields,
        first.union_prefer_right(second),
    ));
    assert(updated(updated(fields, first), first) =~= updated(fields, first));
}

/// A name gives the value of the first field that has it.
pub proof fn law_a_name_gives_its_field<V>(fields: Seq<(Seq<char>, V)>, name: Seq<char>, i: int)
    requires
        0 <= i < fields.len(),
        fields[i].0 == name,
        forall|j: int| 0 <= j < i ==> (#[trigger] fields[j]).0 != name,
    ensures
        field_value(fields, name) == Some(fields[i].1),
    decreases fields.len(),
{
    if i > 0 {
        let rest = fields.skip(1);
        assert(fields[0].0 != name);
        assert forall|j: int| 0 <= j < i - 1 implies (#[trigger] rest[j]).0 != name by {
            assert(rest[j] == fields[j + 1]);
        }
        law_a_name_gives_its_field(rest, name, i - 1);
    }
}

/// A name gives nothing exactly if no field has it.
pub proof fn law_a_name_of_no_field_gives_nothing<V>(
    fields: Seq<(Seq<char>, V)>,
    name: Seq<char>,
)
    ensures
        field_value(fields, name) is None <==> forall|i: int|
            0 <= i < fields.len() ==> (#[trigger] fields[i]).0 != name,
    decreases fields.len(),
{
    if fields.len() > 0 {
        let rest = fields.skip(1);
        law_a_name_of_no_field_gives_nothing(rest, name);
        if field_value(fields, name) is None {
            assert forall|i: int| 0 <= i < fields.len() implies (
            #[trigger] fields[i]).0 != name by {
                if i > 0 {
                    assert(rest[i - 1] == fields[i]);
                }
            }
        }
        if forall|i: int| 0 <= i < fields.len() ==> (#[trigger] fields[i]).0 != name {
            assert(fields[0].0 != name);
            assert forall|i: int| 0 <= i < rest.len() implies (#[trigger] rest[i]).0 != name by {
                assert(rest[i] == fields[i + 1]);
            }
        }
    }
}

/// New fields have the names that were given, in their order, and all one value.
pub proof fn law_new_fields_have_their_names<V>(names: Seq<String>, value: V, i: int)
    requires
        0 <= i < names.len(),
    ensures
        fields_with(names, value).len() == names.len(),
        fields_with(names, value)[i].0 == names[i]@,
        fields_with(names, value)[i].1 == value,
        field_value(fields_with(names, value), names[i]@) == Some(value),
{
    let fields = fields_with(names, value);
    law_a_name_of_no_field_gives_nothing(fields, names[i]@);
    assert(fields[i].0 == names[i]@);
    lemma_one_value(fields, names[i]@, value);
}

proof fn lemma_one_value<V>(fields: Seq<(Seq<char>, V)>, name: Seq<char>, value: V)
    requires
        forall|i: int| 0 <= i < fields.len() ==> (#[trigger] fields[i]).1 == value,
    ensures
        field_value(fields, name) matches Some(v) ==> v == value,
    decreases fields.len(),
{
    if fields.len() > 0 {
        assert(fields[0].1 == value);
        assert forall|i: int| 0 <= i < fields.skip(1).len() implies (
        #[trigger] fields.skip(1)[i]).1 == value by {
            assert(fields[i + 1].1 == value);
        }
        lemma_one_value(fields.skip(1), name, value);
    }
}

/// An update keeps all fields with their names, in their order, and gives each the value under
/// its own name or leaves it its own.
pub proof fn law_update_keeps_names_and_order<V>(
    fields: Seq<(Seq<char>, V)>,
    values: Map<Seq<char>, V>,
    i: int,
)
    requires
        0 <= i < fields.len(),
    ensures
        updated(fields, values).len() == fields.len(),
        updated(fields, values)[i].0 == fields[i].0,
        values.contains_key(fields[i].0) ==> updated(fields, values)[i].1 == values[fields[i].0],
        !values.contains_key(fields[i].0) ==> updated(fields, values)[i].1 == fields[i].1,
{
}

/// Mononoke's delay is zero at first. A configuration sets it to the number under its name,
/// whatever that is, and leaves it if it has none.
pub proof fn law_the_delay_is_set_by_name(
    values: MononokeTunablesModel,
    ints: Map<Seq<char>, i64>,
)
    ensures
        initial_tunables().warm_bookmark_cache_delay == 0,
        contents_values(None).warm_bookmark_cache_delay == 0,
        contents_values(Some(values)) == values,
        ints.contains_key("warm_bookmark_cache_delay"@) ==> values.with_ints(
            ints,
        ).warm_bookmark_cache_delay == ints["warm_bookmark_cache_delay"@],
        !ints.contains_key("warm_bookmark_cache_delay"@) ==> values.with_ints(ints) == values,
{
}

} // verus!
