//! The error value that every statement can fail with: one of three kinds
//! plus a human-readable description.

use vstd::prelude::*;

verus! {

/// The three kinds of failure a statement can produce.
#[derive(Debug, Clone, Copy, PartialEq, Eq, Structural)]
pub enum ErrorTipo {
    Syntax,
    Table,
    Column,
}

/// An error: its kind and a description for the user.
#[derive(Debug)]
pub struct ErrorPrograma {
    tipo: ErrorTipo,
    descripcion: String,
}

/// The text `"Invalid <kind>: "` that the rendered message starts with.
pub open spec fn prefijo_tipo(t: ErrorTipo) -> Seq<char> {
    match t {
        ErrorTipo::Syntax => seq![
            'I', 'n', 'v', 'a', 'l', 'i', 'd', ' ', 'S', 'y', 'n', 't', 'a', 'x', ':', ' ',
        ],
        ErrorTipo::Table => seq![
            'I', 'n', 'v', 'a', 'l', 'i', 'd', ' ', 'T', 'a', 'b', 'l', 'e', ':', ' ',
        ],
        ErrorTipo::Column => seq![
            'I', 'n', 'v', 'a', 'l', 'i', 'd', ' ', 'C', 'o', 'l', 'u', 'm', 'n', ':', ' ',
        ],
    }
}

impl ErrorPrograma {
    /// The kind of this error.
    pub closed spec fn tipo_spec(&self) -> ErrorTipo {
        self.tipo
    }

    /// The description of this error.
    pub closed spec fn descripcion_spec(&self) -> Seq<char> {
        self.descripcion@
    }

    pub fn new(tipo: ErrorTipo, descripcion: &str) -> (r: Self)
        ensures
            r.tipo_spec() == tipo,
            r.descripcion_spec() == descripcion@,
    {
        ErrorPrograma { tipo, descripcion: descripcion.to_owned() }
    }

    pub fn tipo(&self) -> (t: ErrorTipo)
        ensures
            t == self.tipo_spec(),
    {
        self.tipo
    }

    pub fn descripcion(&self) -> (d: &str)
        ensures
            d@ == self.descripcion_spec(),
    {
        self.descripcion.as_str()
    }

    /// The displayable form `Invalid <kind>: <description>`.
    pub fn mensaje(&self) -> (r: String)
        ensures
            r@ == prefijo_tipo(self.tipo_spec()) + self.descripcion_spec(),
    {
        let mut r: String = match self.tipo {
            ErrorTipo::Syntax => {
                let p = String::from_str("Invalid Syntax: ");
                proof {
                    reveal_strlit("Invalid Syntax: ");
                    assert(p@ =~= prefijo_tipo(self.tipo_spec()));
                }
                p
            },
            ErrorTipo::Table => {
                let p = String::from_str("Invalid Table: ");
                proof {
                    reveal_strlit("Invalid Table: ");
                    assert(p@ =~= prefijo_tipo(self.tipo_spec()));
                }
                p
            },
            ErrorTipo::Column => {
                let p = String::from_str("Invalid Column: ");
                proof {
                    reveal_strlit("Invalid Column: ");
                    assert(p@ =~= prefijo_tipo(self.tipo_spec()));
                }
                p
            },
        };
        r.append(self.descripcion.as_str());
        r
    }
}

} // verus!
