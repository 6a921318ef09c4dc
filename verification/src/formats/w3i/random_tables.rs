//! Random unit/item table records.
use crate::error::Error;
use crate::reader::{parse_counted, parse_n, read_counted, read_records, views, ByteReader, Read, ReaderView, Record};
use vstd::prelude::*;

verus! {

/// One row of a random unit table: a chance and one rawcode per column.
#[derive(Debug, Clone)]
pub struct RandomUnit {
    pub chance: i32,
    pub ids: Vec<[u8; 4]>,
}

/// A random unit table (`Set Random Group` in the editor).
#[derive(Debug, Clone)]
pub struct RandomUnitTable {
    pub id: i32,
    pub name: String,
    /// Number of columns.
    pub columns: i32,
    /// Per-column widget type: 0 = unit, 1 = building, 2 = item.
    pub column_types: Vec<i32>,
    /// Rows; each row has `columns` rawcodes.
    pub units: Vec<RandomUnit>,
}

/// One random item entry: a chance and an item rawcode.
#[derive(Debug, Clone)]
pub struct RandomItem {
    pub chance: i32,
    pub id: [u8; 4],
}

/// A set of random items rolled together.
#[derive(Debug, Clone)]
pub struct RandomItemSet {
    pub items: Vec<RandomItem>,
}

/// A random item table (`Set Random Item Group` in the editor).
#[derive(Debug, Clone)]
pub struct RandomItemTable {
    pub id: i32,
    pub name: String,
    pub sets: Vec<RandomItemSet>,
}

pub struct RandomUnitView {
    pub chance: i32,
    pub ids: Seq<Seq<u8>>,
}

pub struct RandomUnitTableView {
    pub id: i32,
    pub name: Seq<char>,
    pub columns: i32,
    pub column_types: Seq<i32>,
    pub units: Seq<RandomUnitView>,
}

pub struct RandomItemView {
    pub chance: i32,
    pub id: Seq<u8>,
}

pub struct RandomItemSetView {
    pub items: Seq<RandomItemView>,
}

pub struct RandomItemTableView {
    pub id: i32,
    pub name: Seq<char>,
    pub sets: Seq<RandomItemSetView>,
}

impl View for RandomUnit {
    type V = RandomUnitView;

    open spec fn view(&self) -> RandomUnitView {
        RandomUnitView { chance: self.chance, ids: views(self.ids@) }
    }
}

impl View for RandomUnitTable {
    type V = RandomUnitTableView;

    open spec fn view(&self) -> RandomUnitTableView {
        RandomUnitTableView {
            id: self.id,
            name: self.name@,
            columns: self.columns,
            column_types: views(self.column_types@),
            units: views(self.units@),
        }
    }
}

impl View for RandomItem {
    type V = RandomItemView;

    open spec fn view(&self) -> RandomItemView {
        RandomItemView { chance: self.chance, id: self.id@ }
    }
}

impl View for RandomItemSet {
    type V = RandomItemSetView;

    open spec fn view(&self) -> RandomItemSetView {
        RandomItemSetView { items: views(self.items@) }
    }
}

impl View for RandomItemTable {
    type V = RandomItemTableView;

    open spec fn view(&self) -> RandomItemTableView {
        RandomItemTableView { id: self.id, name: self.name@, sets: views(self.sets@) }
    }
}

/// A table's column count as a loop bound: a negative count reads no columns.
pub open spec fn column_count(columns: i32) -> u32 {
    if columns < 0 { 0 } else { columns as u32 }
}

/// A row of a random unit table; `columns` is how many rawcodes it holds.
impl Record for RandomUnit {
    open spec fn spec_read(v: ReaderView, columns: u32) -> Read<RandomUnitView> {
        match v.read_i32() {
            Err(e) => Err(e),
            Ok((chance, v)) => match read_records::<[u8; 4]>(v, 0, columns as nat) {
                Err(e) => Err(e),
                Ok((ids, v)) => Ok((RandomUnitView { chance, ids }, v)),
            },
        }
    }

    fn read(r: &mut ByteReader<'_>, columns: u32) -> (res: Result<RandomUnit, Error>) {
        let chance = r.i32()?;
        let ids = parse_n::<[u8; 4]>(r, 0, columns)?;
        Ok(RandomUnit { chance, ids })
    }
}

impl Record for RandomUnitTable {
    open spec fn spec_read(v: ReaderView, version: u32) -> Read<RandomUnitTableView> {
        match v.read_i32() {
            Err(e) => Err(e),
            Ok((id, v)) => match v.read_cstr() {
                Err(e) => Err(e),
                Ok((name, v)) => match v.read_i32() {
                    Err(e) => Err(e),
                    Ok((columns, v)) => match read_records::<i32>(v, 0, column_count(columns) as nat) {
                        Err(e) => Err(e),
                        Ok((column_types, v)) => match v.read_u32() {
                            Err(e) => Err(e),
                            Ok((rows, v)) => match read_records::<RandomUnit>(v, column_count(columns), rows as nat) {
                                Err(e) => Err(e),
                                Ok((units, v)) => Ok((
                                    RandomUnitTableView { id, name, columns, column_types, units },
                                    v,
                                )),
                            },
                        },
                    },
                },
            },
        }
    }

    fn read(r: &mut ByteReader<'_>, version: u32) -> (res: Result<RandomUnitTable, Error>) {
        RandomUnitTable::parse(r)
    }
}

impl RandomUnitTable {
    pub(crate) fn parse(r: &mut ByteReader<'_>) -> (res: Result<Self, Error>)
        requires
            old(r)@.wf(),
        ensures
            final(r)@.wf(),
            match res {
                Ok(x) => Self::spec_read(old(r)@, 0) == Ok::<_, Error>((x@, final(r)@)),
                Err(e) => Self::spec_read(old(r)@, 0) == Err::<(RandomUnitTableView, ReaderView), _>(e),
            },
    {
        let id = r.i32()?;
        let name = r.cstr_lossy()?;
        let columns = r.i32()?;
        let ncols: u32 = if columns < 0 { 0 } else { columns as u32 };
        let column_types = parse_n::<i32>(r, 0, ncols)?;
        let rows = r.u32()?;
        let units = parse_n::<RandomUnit>(r, ncols, rows)?;
        Ok(Self { id, name, columns, column_types, units })
    }
}

impl Record for RandomItem {
    open spec fn spec_read(v: ReaderView, version: u32) -> Read<RandomItemView> {
        match v.read_i32() {
            Err(e) => Err(e),
            Ok((chance, v)) => match v.take(4) {
                Err(e) => Err(e),
                Ok((id, v)) => Ok((RandomItemView { chance, id }, v)),
            },
        }
    }

    fn read(r: &mut ByteReader<'_>, version: u32) -> (res: Result<RandomItem, Error>) {
        let chance = r.i32()?;
        let id = r.bytes::<4>()?;
        Ok(RandomItem { chance, id })
    }
}

impl Record for RandomItemSet {
    open spec fn spec_read(v: ReaderView, version: u32) -> Read<RandomItemSetView> {
        match read_counted::<RandomItem>(v, 0) {
            Err(e) => Err(e),
            Ok((items, v)) => Ok((RandomItemSetView { items }, v)),
        }
    }

    fn read(r: &mut ByteReader<'_>, version: u32) -> (res: Result<RandomItemSet, Error>) {
        let items = parse_counted::<RandomItem>(r, 0)?;
        Ok(RandomItemSet { items })
    }
}

impl Record for RandomItemTable {
    open spec fn spec_read(v: ReaderView, version: u32) -> Read<RandomItemTableView> {
        match v.read_i32() {
            Err(e) => Err(e),
            Ok((id, v)) => match v.read_cstr() {
                Err(e) => Err(e),
                Ok((name, v)) => match read_counted::<RandomItemSet>(v, 0) {
                    Err(e) => Err(e),
                    Ok((sets, v)) => Ok((RandomItemTableView { id, name, sets }, v)),
                },
            },
        }
    }

    fn read(r: &mut ByteReader<'_>, version: u32) -> (res: Result<RandomItemTable, Error>) {
        RandomItemTable::parse(r)
    }
}

impl RandomItemTable {
    pub(crate) fn parse(r: &mut ByteReader<'_>) -> (res: Result<Self, Error>)
        requires
            old(r)@.wf(),
        ensures
            final(r)@.wf(),
            match res {
                Ok(x) => Self::spec_read(old(r)@, 0) == Ok::<_, Error>((x@, final(r)@)),
                Err(e) => Self::spec_read(old(r)@, 0) == Err::<(RandomItemTableView, ReaderView), _>(e),
            },
    {
        let id = r.i32()?;
        let name = r.cstr_lossy()?;
        let sets = parse_counted::<RandomItemSet>(r, 0)?;
        Ok(Self { id, name, sets })
    }
}

} // verus!
