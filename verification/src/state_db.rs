//! Operations on the state database. Writes wait in layers until they are finalized; reads
//! answer from the store alone.

use crate::batch::OpView;
use crate::overlay::{row_deletions, with_writes, Finalization, OverlayDB, OverlayWriteBatch};
use crate::settings::{descriptor_views, settings_for, ColumnDescriptor, DbSettings};
use crate::state_error::StateError;
use crate::state_schema::{
    are_column_names, col_descs_for_state_db, state_column_name, state_column_names,
    state_columns, COLUMN_COUNT,
};
use crate::store::{taken, BoundView, Fetched, Row};
use vstd::prelude::*;
use vstd::slice::slice_to_vec;

verus! {

/// The state database: how it is opened, and the layers above its store.
#[derive(Debug)]
pub struct StateDB {
    settings: DbSettings,
    columns: Vec<ColumnDescriptor>,
    db: OverlayDB,
    col_names: Vec<String>,
}

impl View for StateDB {
    type V = Seq<Seq<OpView<usize>>>;

    /// The layers, the oldest first.
    closed spec fn view(&self) -> Seq<Seq<OpView<usize>>> {
        self.db@
    }
}

/// An increment that waits for the new number's bytes.
#[derive(Debug)]
pub struct PendingIncrement {
    col: usize,
    key: Vec<u8>,
    value: i64,
}

/// A scan met these entries, some of which have no meaning for the reader: those that have.
pub open spec fn parsed_entries<E>(rows: Seq<Row<Option<E>>>) -> Seq<E>
    decreases rows.len(),
{
    if rows.len() == 0 {
        Seq::empty()
    } else {
        match rows.last().value {
            Some(entry) => parsed_entries(rows.drop_last()).push(entry),
            None => parsed_entries(rows.drop_last()),
        }
    }
}

fn entries_of<E>(rows: Vec<Row<Option<E>>>) -> (entries: Vec<E>)
    ensures
        entries@ == parsed_entries(rows@),
{
    let ghost all = rows@;
    let mut entries: Vec<E> = Vec::new();
    assert(all.take(0) =~= Seq::empty());
    for row in it: rows
        invariant
            it.seq() == all,
            entries@ == parsed_entries(all.take(it.index() as int)),
    {
        let ghost i = it.index() as int;
        assert(all.take(i + 1).drop_last() =~= all.take(i));
        match row.value {
            Some(entry) => {
                entries.push(entry);
            },
            None => {},
        }
    }
    assert(all.take(all.len() as int) =~= all);
    entries
}

impl StateDB {
    /// The database is opened with the state columns, and knows their names.
    pub closed spec fn wf(&self) -> bool {
        &&& descriptor_views(self.columns@) == state_columns()
        &&& are_column_names(self.col_names@)
        &&& exists|cpus: usize| cpus >= 1 && self.settings == #[trigger] settings_for(cpus)
    }

    /// The database without layers.
    pub fn new() -> (db: StateDB)
        ensures
            db.wf(),
            db@ == Seq::<Seq<OpView<usize>>>::empty(),
    {
        StateDB {
            settings: DbSettings::detect(),
            columns: col_descs_for_state_db(),
            db: OverlayDB::new(),
            col_names: state_column_names(),
        }
    }

    /// The options that the database is opened with.
    pub fn settings(&self) -> (settings: DbSettings)
        requires
            self.wf(),
        ensures
            exists|cpus: usize| cpus >= 1 && settings == #[trigger] settings_for(cpus),
    {
        self.settings
    }

    /// The columns that the database is opened with.
    pub fn columns(&self) -> (columns: &Vec<ColumnDescriptor>)
        requires
            self.wf(),
        ensures
            descriptor_views(columns@) == state_columns(),
    {
        &self.columns
    }

    /// The name of the column with this index.
    pub fn get_cf(&self, index: usize) -> (name: &str)
        requires
            self.wf(),
            index < COLUMN_COUNT,
        ensures
            name@ == state_column_name(index as int),
    {
        self.col_names[index].as_str()
    }

    /// Puts a new layer on top and hands it out.
    pub fn new_layer(&mut self) -> (layer: &mut OverlayWriteBatch)
        requires
            old(self).wf(),
        ensures
            layer@ == Seq::<OpView<usize>>::empty(),
            final(self)@ == old(self)@.push(final(layer)@),
            final(self).wf(),
    {
        let ghost before = self@;
        self.db.push_layer(OverlayWriteBatch::with_capacity(4 * 1024));
        let layer = self.db.last_layer();
        proof {
            let pushed = before.push(Seq::<OpView<usize>>::empty());
            assert(pushed.last() == Seq::<OpView<usize>>::empty());
            assert(pushed.update(pushed.len() - 1, final(layer->0)@) =~= before.push(
                final(layer->0)@,
            ));
        }
        layer.unwrap()
    }

    /// Takes the oldest layer, to be written to the store. Whether that succeeds is of no
    /// consequence here: the layer is gone. Without layers there is nothing to write.
    pub fn finalize_layer(&mut self) -> (layer: Option<OverlayWriteBatch>)
        requires
            old(self).wf(),
        ensures
            final(self).wf(),
            if old(self)@.len() == 0 {
                layer is None && final(self)@ == old(self)@
            } else {
                (layer matches Some(wb) && wb@ == old(self)@[0]) && final(self)@ == old(
                    self,
                )@.skip(1)
            },
    {
        self.db.pop_oldest()
    }

    /// Takes all layers, to be written to the store one after the other.
    pub(crate) fn finalize_layers(&mut self) -> (run: Finalization)
        requires
            old(self).wf(),
        ensures
            final(self).wf(),
            final(self)@ == Seq::<Seq<OpView<usize>>>::empty(),
            run@ == old(self)@,
    {
        self.db.finalize_layers()
    }

    /// Drops the newest layer.
    pub fn discard_last_layer(&mut self) -> (res: Result<(), StateError>)
        requires
            old(self).wf(),
        ensures
            final(self).wf(),
            if old(self)@.len() == 0 {
                res == Err::<(), _>(StateError::NoLayers) && final(self)@ == old(self)@
            } else {
                res is Ok && final(self)@ == old(self)@.drop_last()
            },
    {
        match self.db.pop_newest() {
            None => Err(StateError::NoLayers),
            Some(_) => Ok(()),
        }
    }

    /// Adds the write of a value to the newest layer.
    pub fn put_key(&mut self, col: usize, key: &[u8], value: &[u8]) -> (res: Result<
        (),
        StateError,
    >)
        requires
            old(self).wf(),
            col < COLUMN_COUNT,
        ensures
            final(self).wf(),
            if old(self)@.len() == 0 {
                res == Err::<(), _>(StateError::NoLayersFound) && final(self)@ == old(self)@
            } else {
                res is Ok && final(self)@ == with_writes(
                    old(self)@,
                    seq![OpView::Put { column: col, key: key@, value: value@ }],
                )
            },
    {
        self.db.put(col, key, value)
    }

    /// Adds the deletion of a key to the newest layer.
    pub fn delete_key(&mut self, col: usize, key: &[u8]) -> (res: Result<(), StateError>)
        requires
            old(self).wf(),
            col < COLUMN_COUNT,
        ensures
            final(self).wf(),
            if old(self)@.len() == 0 {
                res == Err::<(), _>(StateError::NoLayersFound) && final(self)@ == old(self)@
            } else {
                res is Ok && final(self)@ == with_writes(
                    old(self)@,
                    seq![OpView::Delete { column: col, key: key@ }],
                )
            },
    {
        self.db.delete(col, key)
    }

    /// Adds the deletion of every key with a prefix to the newest layer, out of what a scan
    /// from the prefix on came by. Without a layer it fails, whatever the scan came by.
    pub fn delete_by_prefix<V>(
        &mut self,
        col_idx: usize,
        prefix: &[u8],
        items: Vec<Option<Row<V>>>,
    ) -> (res: Result<(), StateError>)
        requires
            old(self).wf(),
            col_idx < COLUMN_COUNT,
        ensures
            final(self).wf(),
            if old(self)@.len() == 0 {
                res == Err::<(), _>(StateError::NoLayersFound) && final(self)@ == old(self)@
            } else {
                res is Ok && final(self)@ == with_writes(
                    old(self)@,
                    row_deletions(col_idx, taken(items@, BoundView::Prefix(prefix@))),
                )
            },
    {
        if self.db.len() == 0 {
            return Err(StateError::NoLayersFound);
        }
        self.db.delete_by_prefix(col_idx, prefix, items)
    }

    /// The value of a key, by what its read answered. The layers are not searched: a write
    /// that waits in one is not seen.
    pub fn get<T>(&self, stored: Fetched<T>) -> (res: Result<Option<T>, StateError>)
        ensures
            match stored {
                Ok(value) => res == Ok::<_, StateError>(value),
                Err(e) => res == Err::<Option<T>, _>(StateError::Read(e)),
            },
    {
        self.db.get(stored)
    }

    /// The value of a key, by what its read answered. The layers are not searched, so the
    /// number `n` of layers to skip has no effect.
    pub fn get_skipped<T>(&self, n: usize, stored: Fetched<T>) -> (res: Result<
        Option<T>,
        StateError,
    >)
        ensures
            match stored {
                Ok(value) => res == Ok::<_, StateError>(value),
                Err(e) => res == Err::<Option<T>, _>(StateError::Read(e)),
            },
    {
        self.db.get_skipped(n, stored)
    }

    /// The value of a key that is known to be in the store. The layers are not searched.
    pub fn must_get<T>(&self, stored: Fetched<T>) -> (value: T)
        requires
            stored matches Ok(Some(_)),
        ensures
            stored == Ok::<_, String>(Some(value)),
    {
        self.db.get(stored).unwrap().unwrap()
    }

    /// The value of a key that is known to be in the store. The layers are not searched, so
    /// the number `n` of layers to skip has no effect.
    pub fn must_get_skipped<T>(&self, n: usize, stored: Fetched<T>) -> (value: T)
        requires
            stored matches Ok(Some(_)),
        ensures
            stored == Ok::<_, String>(Some(value)),
    {
        self.db.get_skipped(n, stored).unwrap().unwrap()
    }

    /// Begins to increase a number that is stored under a key: the number to be stored next.
    /// The layers are not searched, so an increment that waits in one does not count: two that
    /// both wait give the same number.
    pub fn incr_key(&self, col: usize, key: &[u8], stored: Fetched<i64>) -> (res: Result<
        PendingIncrement,
        StateError,
    >)
        requires
            col < COLUMN_COUNT,
            stored matches Ok(value) ==> value matches Some(old_val) && old_val < i64::MAX,
        ensures
            match stored {
                Ok(value) => res matches Ok(pending) && pending.target() == (col, key@)
                    && pending.new_value() == value->0 + 1,
                Err(e) => res == Err::<PendingIncrement, _>(StateError::Read(e)),
            },
    {
        match self.get(stored) {
            Err(e) => Err(e),
            Ok(value) => {
                let old_val: i64 = value.unwrap();
                Ok(PendingIncrement { col, key: slice_to_vec(key), value: old_val + 1 })
            },
        }
    }

    /// The entries of a column that the reader understands, out of what a scan from its
    /// beginning came by. An entry's value is none where its key does not parse.
    pub fn for_each<E>(&self, items: Vec<Option<Row<Option<E>>>>) -> (entries: Vec<E>)
        ensures
            entries@ == parsed_entries(taken(items@, BoundView::All)),
    {
        entries_of(self.db.for_each(items))
    }

    /// The entries with a prefix that the reader understands, out of what a scan from the
    /// prefix on came by. An entry's value is none where its key does not parse.
    pub fn for_each_by_prefix<E>(
        &self,
        prefix: &[u8],
        items: Vec<Option<Row<Option<E>>>>,
    ) -> (entries: Vec<E>)
        ensures
            entries@ == parsed_entries(taken(items@, BoundView::Prefix(prefix@))),
    {
        entries_of(self.db.for_each_by_prefix(prefix, items))
    }
}

impl PendingIncrement {
    /// The column and the key of the number.
    pub closed spec fn target(&self) -> (usize, Seq<u8>) {
        (self.col, self.key@)
    }

    /// The increased number.
    pub closed spec fn new_value(&self) -> int {
        self.value as int
    }

    /// The increased number.
    pub fn value(&self) -> (value: i64)
        ensures
            value == self.new_value(),
    {
        self.value
    }

    /// Adds the write of the increased number, as these bytes, to the newest layer, and
    /// returns it.
    pub fn finish(self, db: &mut StateDB, encoded: &[u8]) -> (res: Result<i64, StateError>)
        requires
            old(db).wf(),
            self.target().0 < COLUMN_COUNT,
        ensures
            final(db).wf(),
            if old(db)@.len() == 0 {
                res == Err::<i64, _>(StateError::NoLayersFound) && final(db)@ == old(db)@
            } else {
                (res matches Ok(value) && value == self.new_value()) && final(db)@ == with_writes(
                    old(db)@,
                    seq![
                        OpView::Put {
                            column: self.target().0,
                            key: self.target().1,
                            value: encoded@,
                        },
                    ],
                )
            },
    {
        match db.put_key(self.col, self.key.as_slice(), encoded) {
            Err(e) => Err(e),
            Ok(()) => Ok(self.value),
        }
    }
}

} // verus!
