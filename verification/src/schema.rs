//! The schema of a table: the names and types of its columns.
//!
//! The catalog stores a schema with a table and hands it back; it does not
//! look into it.

use vstd::prelude::*;

verus! {

/// The type of the values of a column.
#[derive(Clone, Copy, Debug, PartialEq, Eq)]
pub enum DataType {
    Null,
    Boolean,
    UInt8,
    UInt16,
    UInt32,
    UInt64,
    Int8,
    Int16,
    Int32,
    Int64,
    Float32,
    Float64,
    Date16,
    Date32,
    DateTime32,
    String,
}

/// One column of a table.
#[derive(Debug, PartialEq, Eq)]
pub struct DataField {
    name: String,
    data_type: DataType,
    nullable: bool,
}

/// A `DataField` as contracts see it.
pub struct DataFieldView {
    pub name: Seq<char>,
    pub data_type: DataType,
    pub nullable: bool,
}

impl View for DataField {
    type V = DataFieldView;

    closed spec fn view(&self) -> DataFieldView {
        DataFieldView { name: self.name@, data_type: self.data_type, nullable: self.nullable }
    }
}

impl DeepView for DataField {
    type V = DataFieldView;

    open spec fn deep_view(&self) -> DataFieldView {
        self@
    }
}

impl DataField {
    /// A column of the given name and type.
    pub fn new(name: &str, data_type: DataType, nullable: bool) -> (f: Self)
        ensures
            f@ == (DataFieldView { name: name@, data_type, nullable }),
    {
        DataField { name: name.to_owned(), data_type, nullable }
    }

    /// The column's name.
    pub fn name(&self) -> (n: &String)
        ensures
            n@ == self@.name,
    {
        &self.name
    }

    /// The type of the column's values.
    pub fn data_type(&self) -> (t: DataType)
        ensures
            t == self@.data_type,
    {
        self.data_type
    }

    /// Whether the column admits missing values.
    pub fn is_nullable(&self) -> (n: bool)
        ensures
            n == self@.nullable,
    {
        self.nullable
    }
}

impl Clone for DataField {
    fn clone(&self) -> (r: Self)
        ensures
            r@ == self@,
    {
        DataField { name: self.name.clone(), data_type: self.data_type, nullable: self.nullable }
    }
}

/// The columns of a table, in order.
#[derive(Debug, PartialEq, Eq)]
pub struct DataSchema {
    fields: Vec<DataField>,
}

impl View for DataSchema {
    type V = Seq<DataFieldView>;

    closed spec fn view(&self) -> Seq<DataFieldView> {
        self.fields.deep_view()
    }
}

impl DeepView for DataSchema {
    type V = Seq<DataFieldView>;

    open spec fn deep_view(&self) -> Seq<DataFieldView> {
        self@
    }
}

impl DataSchema {
    /// A schema without columns.
    pub fn empty() -> (s: Self)
        ensures
            s@ == Seq::<DataFieldView>::empty(),
    {
        let s = DataSchema { fields: Vec::new() };
        assert(s@ =~= Seq::<DataFieldView>::empty());
        s
    }

    /// The schema with the given columns.
    pub fn new(fields: Vec<DataField>) -> (s: Self)
        ensures
            s@ == fields.deep_view(),
    {
        DataSchema { fields }
    }

    /// The number of columns.
    pub fn len(&self) -> (n: usize)
        ensures
            n == self@.len(),
    {
        self.fields.len()
    }

    /// The column at position `i`.
    pub fn field(&self, i: usize) -> (f: &DataField)
        requires
            i < self@.len(),
        ensures
            f@ == self@[i as int],
    {
        &self.fields[i]
    }
}

impl Clone for DataSchema {
    fn clone(&self) -> (r: Self)
        ensures
            r@ == self@,
    {
        let mut fields: Vec<DataField> = Vec::new();
        let mut i: usize = 0;
        while i < self.fields.len()
            invariant
                i <= self.fields@.len(),
                fields@.len() == i,
                forall|j: int| 0 <= j < i ==> (#[trigger] fields@[j])@ == self.fields@[j]@,
            decreases self.fields@.len() - i,
        {
            fields.push(self.fields[i].clone());
            i += 1;
        }
        let r = DataSchema { fields };
        assert(r@ =~= self@);
        r
    }
}

} // verus!
