//! Records of the `war3map.wtg` trigger file (trigger categories and global
//! variables). The file as a whole is not parsed: only its records are.
use crate::error::Error;
use crate::reader::{read_if, ByteReader, Read, ReaderView, Record};
use vstd::prelude::*;

verus! {

/// A trigger category of the trigger editor.
#[derive(Debug, Clone)]
pub struct TriggerCategory {
    pub id: i32,
    pub name: String,
    /// Whether the category is a comment (version 7 only).
    pub is_comment: Option<i32>,
}

pub struct TriggerCategoryView {
    pub id: i32,
    pub name: Seq<char>,
    pub is_comment: Option<i32>,
}

impl View for TriggerCategory {
    type V = TriggerCategoryView;

    open spec fn view(&self) -> TriggerCategoryView {
        TriggerCategoryView { id: self.id, name: self.name@, is_comment: self.is_comment }
    }
}

impl Record for TriggerCategory {
    /// The id, the name, and — in version 7 — the comment flag.
    open spec fn spec_read(v: ReaderView, version: u32) -> Read<TriggerCategoryView> {
        match v.read_i32() {
            Err(e) => Err(e),
            Ok((id, v)) => match v.read_cstr() {
                Err(e) => Err(e),
                Ok((name, v)) => match read_if(version == 7, v, v.read_i32()) {
                    Err(e) => Err(e),
                    Ok((is_comment, v)) => Ok((TriggerCategoryView { id, name, is_comment }, v)),
                },
            },
        }
    }

    fn read(r: &mut ByteReader<'_>, version: u32) -> (res: Result<TriggerCategory, Error>) {
        let id = r.i32()?;
        let name = r.cstr_lossy()?;
        let is_comment = r.opt_i32(version == 7)?;
        Ok(TriggerCategory { id, name, is_comment })
    }
}

/// A global variable of the trigger editor.
#[derive(Debug, Clone)]
pub struct Variable {
    pub name: String,
    pub variable_type: String,
    pub u1: i32,
    pub is_array: i32,
    /// Array size (version 7 only).
    pub array_size: Option<i32>,
    pub is_initialized: i32,
    pub initial_value: String,
}

pub struct VariableView {
    pub name: Seq<char>,
    pub variable_type: Seq<char>,
    pub u1: i32,
    pub is_array: i32,
    pub array_size: Option<i32>,
    pub is_initialized: i32,
    pub initial_value: Seq<char>,
}

impl View for Variable {
    type V = VariableView;

    open spec fn view(&self) -> VariableView {
        VariableView {
            name: self.name@,
            variable_type: self.variable_type@,
            u1: self.u1,
            is_array: self.is_array,
            array_size: self.array_size,
            is_initialized: self.is_initialized,
            initial_value: self.initial_value@,
        }
    }
}

impl Record for Variable {
    /// Name, type, an unknown word, the array flag, the array size in
    /// version 7, the initialised flag and the initial value.
    open spec fn spec_read(v: ReaderView, version: u32) -> Read<VariableView> {
        match v.read_cstr() {
            Err(e) => Err(e),
            Ok((name, v)) => match v.read_cstr() {
                Err(e) => Err(e),
                Ok((variable_type, v)) => match v.read_i32() {
                    Err(e) => Err(e),
                    Ok((u1, v)) => match v.read_i32() {
                        Err(e) => Err(e),
                        Ok((is_array, v)) => match read_if(version == 7, v, v.read_i32()) {
                            Err(e) => Err(e),
                            Ok((array_size, v)) => match v.read_i32() {
                                Err(e) => Err(e),
                                Ok((is_initialized, v)) => match v.read_cstr() {
                                    Err(e) => Err(e),
                                    Ok((initial_value, v)) => Ok(
                                        (
                                            VariableView {
                                                name,
                                                variable_type,
                                                u1,
                                                is_array,
                                                array_size,
                                                is_initialized,
                                                initial_value,
                                            },
                                            v,
                                        ),
                                    ),
                                },
                            },
                        },
                    },
                },
            },
        }
    }

    fn read(r: &mut ByteReader<'_>, version: u32) -> (res: Result<Variable, Error>) {
        let name = r.cstr_lossy()?;
        let variable_type = r.cstr_lossy()?;
        let u1 = r.i32()?;
        let is_array = r.i32()?;
        let array_size = r.opt_i32(version == 7)?;
        let is_initialized = r.i32()?;
        let initial_value = r.cstr_lossy()?;
        Ok(Variable { name, variable_type, u1, is_array, array_size, is_initialized, initial_value })
    }
}

/// The contents of a trigger file.
#[derive(Debug, Clone)]
pub struct War3MapWtg {
    pub version: i32,
    pub categories: Vec<TriggerCategory>,
    pub u1: i32,
    pub variables: Vec<Variable>,
    pub triggers: Vec<String>,
}

} // verus!
