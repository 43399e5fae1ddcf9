use vstd::prelude::*;

verus! {

/// The stack size used when the spawner asks for nothing else.
pub const DEFAULT_STACK_SIZE: usize = 131072;

/// What a spawner may choose about a new coroutine: the size of its
/// execution stack, in bytes, and an optional name.
pub struct Options {
    pub stack_size: usize,
    pub name: Option<String>,
}

impl Options {
    /// The default options: a stack of `DEFAULT_STACK_SIZE` bytes, no name.
    pub fn new() -> (r: Options)
        ensures
            r.stack_size == DEFAULT_STACK_SIZE,
            r.name is None,
    {
        Options { stack_size: DEFAULT_STACK_SIZE, name: None }
    }

    /// The same options with the stack size replaced.
    pub fn stack_size(self, size: usize) -> (r: Options)
        ensures
            r.stack_size == size,
            r.name == self.name,
    {
        Options { stack_size: size, name: self.name }
    }

    /// The same options with the name set.
    pub fn name(self, name: String) -> (r: Options)
        ensures
            r.stack_size == self.stack_size,
            r.name matches Some(n) && n@ == name@,
    {
        Options { stack_size: self.stack_size, name: Some(name) }
    }
}

impl Default for Options {
    /// Same as `Options::new`.
    fn default() -> (r: Options)
        ensures
            r.stack_size == DEFAULT_STACK_SIZE,
            r.name is None,
    {
        Options::new()
    }
}

} // verus!
