//! The command-line request as plain data.  Parsing the process arguments is
//! the embedding program's concern; this type carries the parsed values into
//! the library.

use vstd::prelude::*;

verus! {

/// A request to extract declarations: where to read the schema text, where
/// to write the extracted definitions, and which names to extract.
pub struct Cli {
    /// Path of the schema file to read.
    pub schema_path: String,
    /// Path of the output file to write.
    pub output_path: String,
    /// The table or view names to extract; at least one is expected.
    pub tables: Vec<String>,
}

impl Cli {
    /// A request is meaningful when at least one name is asked for.
    pub open spec fn wf(&self) -> bool {
        self.tables@.len() >= 1
    }

    pub fn new(schema_path: String, output_path: String, tables: Vec<String>) -> (c: Cli)
        requires
            tables@.len() >= 1,
        ensures
            c.wf(),
            c.schema_path == schema_path,
            c.output_path == output_path,
            c.tables == tables,
    {
        Cli { schema_path, output_path, tables }
    }
}

} // verus!
