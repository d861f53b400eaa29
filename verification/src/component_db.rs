//! Read-only reference tables: what the linked components declare, which
//! symbols exist and which color names are known.

use vstd::prelude::*;

verus! {

/// A value suggested for a command argument.
pub struct ComponentArgument {
    pub name: String,
    pub image: Option<String>,
}

/// One parameter of a command: the values suggested for it.
pub struct ComponentParameter(pub Vec<ComponentArgument>);

/// A command that a component declares, with its parameters in order.
pub struct ComponentCommand {
    pub name: String,
    pub image: Option<String>,
    pub parameters: Vec<ComponentParameter>,
}

/// A package or class: the files it is known by and what it declares.
pub struct Component {
    pub file_names: Vec<String>,
    pub commands: Vec<ComponentCommand>,
}

/// A command symbol and the file of the component it comes from; `None` for
/// a symbol that is built in.
pub struct CommandSymbol {
    pub command: String,
    pub component: Option<String>,
    pub image: Option<String>,
}

/// The tables that a request is answered from.
pub struct ReferenceData {
    /// The components linked to the documents of the request.
    pub components: Vec<Component>,
    /// The known command symbols.
    pub symbols: Vec<CommandSymbol>,
    /// The known color names.
    pub colors: Vec<String>,
}

impl ReferenceData {
    /// Puts the tables of a request together.
    pub fn new(
        components: Vec<Component>,
        symbols: Vec<CommandSymbol>,
        colors: Vec<String>,
    ) -> (data: ReferenceData)
        ensures
            data.components == components,
            data.symbols == symbols,
            data.colors == colors,
    {
        ReferenceData { components, symbols, colors }
    }
}

} // verus!
