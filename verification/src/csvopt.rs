//! Configuration for the delimited-text collaborators: reading options
//! with schema inference controls, and writing options with quoting and
//! null-representation controls. The readers and writers themselves live
//! outside the core; the core only carries their settings and the
//! per-kind parsing logic.

use vstd::prelude::*;
use std::collections::{HashMap, HashSet};
use crate::dtype::DataType;

verus! {

/// How a delimited-text writer quotes fields.
#[derive(Debug, Clone, PartialEq, Eq)]
pub enum QuoteStyle {
    /// Quote every field.
    Always,
    /// Quote only fields holding the delimiter, a quote or a line break.
    Necessary,
    /// Never quote.
    Never,
    /// Quote only non-numeric fields.
    NonNumeric,
}

impl Default for QuoteStyle {
    /// The default style quotes only where needed.
    fn default() -> (r: Self)
        ensures
            r == QuoteStyle::Necessary,
    {
        QuoteStyle::Necessary
    }
}

/// The settings of a delimited-text read.
#[derive(Debug)]
pub struct ReadCsvOptions {
    /// The field separator.
    pub delimiter: u8,
    /// Whether the first record names the columns.
    pub has_header: bool,
    /// Whether to infer each column's kind from sampled text.
    pub infer_schema: bool,
    /// How many present values at most feed the inference.
    pub infer_schema_length: Option<usize>,
    /// Kinds fixed by hand, overriding inference.
    pub dtypes: Option<HashMap<String, DataType>>,
    /// How many leading lines to skip.
    pub skip_rows: usize,
    /// Lines opening with this byte are comments.
    pub comment_char: Option<u8>,
    /// The columns to read; all of them when absent.
    pub use_columns: Option<Vec<String>>,
    /// The texts standing for a missing value.
    pub na_values: Option<HashSet<String>>,
}

impl Default for ReadCsvOptions {
    /// Comma-separated, with a header, inferring kinds from at most a
    /// hundred values.
    fn default() -> (r: Self)
        ensures
            r.delimiter == 44,
            r.has_header,
            r.infer_schema,
            r.infer_schema_length == Some(100usize),
            r.dtypes is None,
            r.skip_rows == 0,
            r.comment_char is None,
            r.use_columns is None,
            r.na_values is None,
    {
        ReadCsvOptions {
            delimiter: 44,
            has_header: true,
            infer_schema: true,
            infer_schema_length: Some(100),
            dtypes: None,
            skip_rows: 0,
            comment_char: None,
            use_columns: None,
            na_values: None,
        }
    }
}

impl ReadCsvOptions {
    /// A builder starting from the defaults.
    pub fn builder() -> (r: ReadCsvOptionsBuilder)
        ensures
            r.delimiter is None,
            r.has_header is None,
            r.infer_schema is None,
            r.infer_schema_length is None,
            r.dtypes is None,
            r.skip_rows is None,
            r.comment_char is None,
            r.use_columns is None,
            r.na_values is None,
    {
        ReadCsvOptionsBuilder::new()
    }
}

/// A step-by-step maker of `ReadCsvOptions`; an unset field falls back
/// to its default.
#[derive(Debug)]
pub struct ReadCsvOptionsBuilder {
    pub delimiter: Option<u8>,
    pub has_header: Option<bool>,
    pub infer_schema: Option<bool>,
    pub infer_schema_length: Option<Option<usize>>,
    pub dtypes: Option<HashMap<String, DataType>>,
    pub skip_rows: Option<usize>,
    pub comment_char: Option<Option<u8>>,
    pub use_columns: Option<Vec<String>>,
    pub na_values: Option<HashSet<String>>,
}

impl ReadCsvOptionsBuilder {
    /// A builder with nothing set.
    pub fn new() -> (r: Self)
        ensures
            r.delimiter is None,
            r.has_header is None,
            r.infer_schema is None,
            r.infer_schema_length is None,
            r.dtypes is None,
            r.skip_rows is None,
            r.comment_char is None,
            r.use_columns is None,
            r.na_values is None,
    {
        ReadCsvOptionsBuilder {
            delimiter: None,
            has_header: None,
            infer_schema: None,
            infer_schema_length: None,
            dtypes: None,
            skip_rows: None,
            comment_char: None,
            use_columns: None,
            na_values: None,
        }
    }

    /// Sets the field separator.
    pub fn with_delimiter(self, delimiter: u8) -> (r: Self)
        ensures
            r == (Self { delimiter: Some(delimiter), ..self }),
    {
        Self { delimiter: Some(delimiter), ..self }
    }

    /// Sets whether the first record names the columns.
    pub fn with_header(self, has_header: bool) -> (r: Self)
        ensures
            r == (Self { has_header: Some(has_header), ..self }),
    {
        Self { has_header: Some(has_header), ..self }
    }

    /// Sets whether kinds are inferred from sampled text.
    pub fn infer_schema(self, infer: bool) -> (r: Self)
        ensures
            r == (Self { infer_schema: Some(infer), ..self }),
    {
        Self { infer_schema: Some(infer), ..self }
    }

    /// Sets how many present values at most feed the inference.
    pub fn infer_schema_length(self, length: Option<usize>) -> (r: Self)
        ensures
            r == (Self { infer_schema_length: Some(length), ..self }),
    {
        Self { infer_schema_length: Some(length), ..self }
    }

    /// Fixes the kinds of the named columns by hand.
    pub fn with_dtypes(self, dtypes: HashMap<String, DataType>) -> (r: Self)
        ensures
            r.delimiter == self.delimiter,
            r.has_header == self.has_header,
            r.infer_schema == self.infer_schema,
            r.infer_schema_length == self.infer_schema_length,
            r.dtypes is Some,
            r.skip_rows == self.skip_rows,
            r.comment_char == self.comment_char,
            r.use_columns == self.use_columns,
            r.na_values == self.na_values,
    {
        Self { dtypes: Some(dtypes), ..self }
    }

    /// Fixes the kind of one named column by hand.
    pub fn add_dtype(self, column_name: String, dtype: DataType) -> (r: Self)
        ensures
            r.delimiter == self.delimiter,
            r.has_header == self.has_header,
            r.infer_schema == self.infer_schema,
            r.infer_schema_length == self.infer_schema_length,
            r.dtypes is Some,
            r.skip_rows == self.skip_rows,
            r.comment_char == self.comment_char,
            r.use_columns == self.use_columns,
            r.na_values == self.na_values,
    {
        let mut s = self;
        let mut m = match s.dtypes {
            Some(m) => m,
            None => HashMap::new(),
        };
        m.insert(column_name, dtype);
        s.dtypes = Some(m);
        s
    }

    /// Sets how many leading lines to skip.
    pub fn skip_rows(self, n: usize) -> (r: Self)
        ensures
            r == (Self { skip_rows: Some(n), ..self }),
    {
        Self { skip_rows: Some(n), ..self }
    }

    /// Sets the comment byte.
    pub fn comment_char(self, char_opt: Option<u8>) -> (r: Self)
        ensures
            r == (Self { comment_char: Some(char_opt), ..self }),
    {
        Self { comment_char: Some(char_opt), ..self }
    }

    /// Restricts the read to the named columns.
    pub fn use_columns(self, columns: Vec<String>) -> (r: Self)
        ensures
            r == (Self { use_columns: Some(columns), ..self }),
    {
        Self { use_columns: Some(columns), ..self }
    }

    /// Adds one column to the restriction.
    pub fn add_use_column(self, column_name: String) -> (r: Self)
        ensures
            r.delimiter == self.delimiter,
            r.has_header == self.has_header,
            r.infer_schema == self.infer_schema,
            r.infer_schema_length == self.infer_schema_length,
            r.dtypes == self.dtypes,
            r.skip_rows == self.skip_rows,
            r.comment_char == self.comment_char,
            r.use_columns matches Some(cs) && cs@ == (match self.use_columns {
                Some(old_cs) => old_cs@.push(column_name),
                None => seq![column_name],
            }),
            r.na_values == self.na_values,
    {
        let mut s = self;
        let mut cs = match s.use_columns {
            Some(cs) => cs,
            None => Vec::new(),
        };
        cs.push(column_name);
        s.use_columns = Some(cs);
        s
    }

    /// Sets the texts standing for a missing value.
    pub fn na_values(self, values: Option<HashSet<String>>) -> (r: Self)
        ensures
            r.delimiter == self.delimiter,
            r.has_header == self.has_header,
            r.infer_schema == self.infer_schema,
            r.infer_schema_length == self.infer_schema_length,
            r.dtypes == self.dtypes,
            r.skip_rows == self.skip_rows,
            r.comment_char == self.comment_char,
            r.use_columns == self.use_columns,
            r.na_values == values,
    {
        Self { na_values: values, ..self }
    }

    /// Adds one text standing for a missing value.
    pub fn add_na_value(self, value: String) -> (r: Self)
        ensures
            r.delimiter == self.delimiter,
            r.has_header == self.has_header,
            r.infer_schema == self.infer_schema,
            r.infer_schema_length == self.infer_schema_length,
            r.dtypes == self.dtypes,
            r.skip_rows == self.skip_rows,
            r.comment_char == self.comment_char,
            r.use_columns == self.use_columns,
            r.na_values is Some,
    {
        let mut s = self;
        let mut vs = match s.na_values {
            Some(vs) => vs,
            None => HashSet::new(),
        };
        vs.insert(value);
        s.na_values = Some(vs);
        s
    }

    /// The finished settings: every unset field takes its default.
    pub fn build(self) -> (r: ReadCsvOptions)
        ensures
            r.delimiter == (match self.delimiter {
                Some(d) => d,
                None => 44u8,
            }),
            r.has_header == (match self.has_header {
                Some(h) => h,
                None => true,
            }),
            r.infer_schema == (match self.infer_schema {
                Some(i) => i,
                None => true,
            }),
            r.infer_schema_length == (match self.infer_schema_length {
                Some(l) => l,
                None => Some(100usize),
            }),
            r.skip_rows == (match self.skip_rows {
                Some(n) => n,
                None => 0usize,
            }),
            r.comment_char == (match self.comment_char {
                Some(c) => c,
                None => None,
            }),
            r.dtypes == self.dtypes,
            r.use_columns == self.use_columns,
            r.na_values == self.na_values,
    {
        ReadCsvOptions {
            delimiter: match self.delimiter {
                Some(d) => d,
                None => 44,
            },
            has_header: match self.has_header {
                Some(h) => h,
                None => true,
            },
            infer_schema: match self.infer_schema {
                Some(i) => i,
                None => true,
            },
            infer_schema_length: match self.infer_schema_length {
                Some(l) => l,
                None => Some(100),
            },
            dtypes: self.dtypes,
            skip_rows: match self.skip_rows {
                Some(n) => n,
                None => 0,
            },
            comment_char: match self.comment_char {
                Some(c) => c,
                None => None,
            },
            use_columns: self.use_columns,
            na_values: self.na_values,
        }
    }
}

/// The settings of a delimited-text write.
#[derive(Debug)]
pub struct WriteCsvOptions {
    /// Whether to write a header record of the column names.
    pub has_header: bool,
    /// The field separator.
    pub delimiter: u8,
    /// The text standing for a missing value.
    pub na_rep: String,
    /// The quoting style.
    pub quote_style: QuoteStyle,
    /// The record terminator.
    pub line_terminator: String,
}

impl Default for WriteCsvOptions {
    /// Comma-separated with a header, missing values empty, quoting only
    /// where needed, records ending in a line feed.
    fn default() -> (r: Self)
        ensures
            r.has_header,
            r.delimiter == 44,
            r.na_rep@ == Seq::<char>::empty(),
            r.quote_style == QuoteStyle::Necessary,
            r.line_terminator@ == seq!['\n'],
    {
        proof {
            reveal_strlit("");
            reveal_strlit("\n");
        }
        let r = WriteCsvOptions {
            has_header: true,
            delimiter: 44,
            na_rep: String::from_str(""),
            quote_style: QuoteStyle::Necessary,
            line_terminator: String::from_str("\n"),
        };
        proof {
            assert(r.na_rep@ =~= Seq::<char>::empty());
            assert(r.line_terminator@ =~= seq!['\n']);
        }
        r
    }
}

impl WriteCsvOptions {
    /// A builder starting from the defaults.
    pub fn builder() -> (r: WriteCsvOptionsBuilder)
        ensures
            r.has_header is None,
            r.delimiter is None,
            r.na_rep is None,
            r.quote_style is None,
            r.line_terminator is None,
    {
        WriteCsvOptionsBuilder::new()
    }
}

/// A step-by-step maker of `WriteCsvOptions`; an unset field falls back
/// to its default.
#[derive(Debug)]
pub struct WriteCsvOptionsBuilder {
    pub has_header: Option<bool>,
    pub delimiter: Option<u8>,
    pub na_rep: Option<String>,
    pub quote_style: Option<QuoteStyle>,
    pub line_terminator: Option<String>,
}

impl WriteCsvOptionsBuilder {
    /// A builder with nothing set.
    pub fn new() -> (r: Self)
        ensures
            r.has_header is None,
            r.delimiter is None,
            r.na_rep is None,
            r.quote_style is None,
            r.line_terminator is None,
    {
        WriteCsvOptionsBuilder {
            has_header: None,
            delimiter: None,
            na_rep: None,
            quote_style: None,
            line_terminator: None,
        }
    }

    /// Sets whether a header record is written.
    pub fn with_header(self, has_header: bool) -> (r: Self)
        ensures
            r == (Self { has_header: Some(has_header), ..self }),
    {
        Self { has_header: Some(has_header), ..self }
    }

    /// Sets the field separator.
    pub fn with_delimiter(self, delimiter: u8) -> (r: Self)
        ensures
            r == (Self { delimiter: Some(delimiter), ..self }),
    {
        Self { delimiter: Some(delimiter), ..self }
    }

    /// Sets the text standing for a missing value.
    pub fn na_representation(self, na_rep: String) -> (r: Self)
        ensures
            r == (Self { na_rep: Some(na_rep), ..self }),
    {
        Self { na_rep: Some(na_rep), ..self }
    }

    /// Sets the quoting style.
    pub fn quote_style(self, style: QuoteStyle) -> (r: Self)
        ensures
            r == (Self { quote_style: Some(style), ..self }),
    {
        Self { quote_style: Some(style), ..self }
    }

    /// Sets the record terminator.
    pub fn line_terminator(self, terminator: String) -> (r: Self)
        ensures
            r == (Self { line_terminator: Some(terminator), ..self }),
    {
        Self { line_terminator: Some(terminator), ..self }
    }

    /// The finished settings: every unset field takes its default.
    pub fn build(self) -> (r: WriteCsvOptions)
        ensures
            r.has_header == (match self.has_header {
                Some(h) => h,
                None => true,
            }),
            r.delimiter == (match self.delimiter {
                Some(d) => d,
                None => 44u8,
            }),
            self.na_rep matches Some(s) ==> r.na_rep == s,
            self.na_rep is None ==> r.na_rep@ == Seq::<char>::empty(),
            r.quote_style == (match self.quote_style {
                Some(q) => q,
                None => QuoteStyle::Necessary,
            }),
            self.line_terminator matches Some(s) ==> r.line_terminator == s,
            self.line_terminator is None ==> r.line_terminator@ == seq!['\n'],
    {
        proof {
            reveal_strlit("");
            reveal_strlit("\n");
        }
        let na_rep = match self.na_rep {
            Some(s) => s,
            None => String::from_str(""),
        };
        let line_terminator = match self.line_terminator {
            Some(s) => s,
            None => String::from_str("\n"),
        };
        proof {
            if self.na_rep is None {
                assert(na_rep@ =~= Seq::<char>::empty());
            }
            if self.line_terminator is None {
                assert(line_terminator@ =~= seq!['\n']);
            }
        }
        WriteCsvOptions {
            has_header: match self.has_header {
                Some(h) => h,
                None => true,
            },
            delimiter: match self.delimiter {
                Some(d) => d,
                None => 44,
            },
            na_rep,
            quote_style: match self.quote_style {
                Some(q) => q,
                None => QuoteStyle::Necessary,
            },
            line_terminator,
        }
    }
}

} // verus!
