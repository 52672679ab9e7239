//! How a database is opened and how its columns are tuned.

use vstd::prelude::*;

verus! {

/// Options of a database as a whole.
#[derive(Clone, Copy, Debug)]
pub struct DbSettings {
    pub create_if_missing: bool,
    pub create_missing_column_families: bool,
    /// Number of background threads.
    pub parallelism: i32,
    pub max_open_files: i32,
}

/// The settings on a machine with this many processors.
pub open spec fn settings_for(cpus: usize) -> DbSettings {
    DbSettings {
        create_if_missing: true,
        create_missing_column_families: true,
        parallelism: cpus as i32,
        max_open_files: 1024,
    }
}

/// Calls `num_cpus::get`: the number of processors available to the process, which is at
/// least one.
#[verifier::external_body]
pub(crate) fn cpu_count() -> (cpus: usize)
    ensures
        cpus >= 1,
{
    num_cpus::get()
}

impl DbSettings {
    /// The settings on a machine with `cpus` processors.
    pub fn with_cpus(cpus: usize) -> (settings: DbSettings)
        ensures
            settings == settings_for(cpus),
    {
        DbSettings {
            create_if_missing: true,
            create_missing_column_families: true,
            parallelism: #[verifier::truncate] (cpus as i32),
            max_open_files: 1024,
        }
    }

    /// The settings on this machine.
    pub fn detect() -> (settings: DbSettings)
        ensures
            exists|cpus: usize| cpus >= 1 && settings == #[trigger] settings_for(cpus),
    {
        let cpus = cpu_count();
        DbSettings::with_cpus(cpus)
    }
}

/// A column of a database and where it departs from the store's defaults.
#[derive(Clone, Copy, Debug)]
pub struct ColumnDescriptor {
    pub name: &'static str,
    /// Number of levels, if not the default.
    pub num_levels: Option<i32>,
    /// Whether compression is switched off.
    pub uncompressed: bool,
    /// Length of the key prefix that the column is indexed by, if any.
    pub prefix_len: Option<usize>,
    /// Number of write buffers, if not the default.
    pub max_write_buffer_number: Option<i32>,
}

/// [`ColumnDescriptor`] with the characters of its name.
pub struct DescriptorView {
    pub name: Seq<char>,
    pub num_levels: Option<i32>,
    pub uncompressed: bool,
    pub prefix_len: Option<usize>,
    pub max_write_buffer_number: Option<i32>,
}

impl View for ColumnDescriptor {
    type V = DescriptorView;

    open spec fn view(&self) -> DescriptorView {
        DescriptorView {
            name: self.name@,
            num_levels: self.num_levels,
            uncompressed: self.uncompressed,
            prefix_len: self.prefix_len,
            max_write_buffer_number: self.max_write_buffer_number,
        }
    }
}

impl DescriptorView {
    /// A column with the store's defaults.
    pub open spec fn plain(name: Seq<char>) -> DescriptorView {
        DescriptorView {
            name,
            num_levels: None,
            uncompressed: false,
            prefix_len: None,
            max_write_buffer_number: None,
        }
    }

    /// A small column: two levels, no compression.
    pub open spec fn small(name: Seq<char>) -> DescriptorView {
        DescriptorView { num_levels: Some(2), uncompressed: true, ..DescriptorView::plain(name) }
    }
}

/// The descriptors, by their views.
pub open spec fn descriptor_views(columns: Seq<ColumnDescriptor>) -> Seq<DescriptorView> {
    columns.map_values(|c: ColumnDescriptor| c@)
}

impl ColumnDescriptor {
    /// A column with the store's defaults.
    pub fn plain(name: &'static str) -> (column: ColumnDescriptor)
        ensures
            column@ == DescriptorView::plain(name@),
    {
        ColumnDescriptor {
            name,
            num_levels: None,
            uncompressed: false,
            prefix_len: None,
            max_write_buffer_number: None,
        }
    }

    /// A small column: two levels, no compression.
    pub fn small(name: &'static str) -> (column: ColumnDescriptor)
        ensures
            column@ == DescriptorView::small(name@),
    {
        ColumnDescriptor {
            name,
            num_levels: Some(2),
            uncompressed: true,
            prefix_len: None,
            max_write_buffer_number: None,
        }
    }

    /// The same column, indexed by key prefixes of this length.
    pub fn with_prefix(self, len: usize) -> (column: ColumnDescriptor)
        ensures
            column@ == (DescriptorView { prefix_len: Some(len), ..self@ }),
    {
        ColumnDescriptor {
            name: self.name,
            num_levels: self.num_levels,
            uncompressed: self.uncompressed,
            prefix_len: Some(len),
            max_write_buffer_number: self.max_write_buffer_number,
        }
    }

    /// The same column, with this many write buffers.
    pub fn with_write_buffers(self, count: i32) -> (column: ColumnDescriptor)
        ensures
            column@ == (DescriptorView { max_write_buffer_number: Some(count), ..self@ }),
    {
        ColumnDescriptor {
            name: self.name,
            num_levels: self.num_levels,
            uncompressed: self.uncompressed,
            prefix_len: self.prefix_len,
            max_write_buffer_number: Some(count),
        }
    }

    /// The same column, without compression.
    pub fn without_compression(self) -> (column: ColumnDescriptor)
        ensures
            column@ == (DescriptorView { uncompressed: true, ..self@ }),
    {
        ColumnDescriptor {
            name: self.name,
            num_levels: self.num_levels,
            uncompressed: true,
            prefix_len: self.prefix_len,
            max_write_buffer_number: self.max_write_buffer_number,
        }
    }
}

} // verus!
