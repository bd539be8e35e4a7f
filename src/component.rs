use vstd::prelude::*;

verus! {

broadcast use vstd::string::to_string_from_display_ensures_for_str;

/// Settings a host hands to a component when it starts.
pub struct ComponentConfig {
    pub name: String,
    pub version: String,
    pub features: Vec<String>,
}

/// The lifecycle a message-driven host drives.
pub trait Component {
    fn initialize(&mut self, config: ComponentConfig) -> Result<(), String>;

    fn process_message(&self, message: Vec<u8>) -> Result<Vec<u8>, String>;

    fn cleanup(&mut self) -> Result<(), String>;
}

/// A component that answers each message with its bytes reversed, once
/// initialized. Its state is owned by the caller, not held globally.
pub struct MyComponent {
    config: Option<ComponentConfig>,
    initialized: bool,
}

impl MyComponent {
    pub closed spec fn ready(&self) -> bool {
        self.initialized && self.config is Some
    }

    /// The configuration stored by the last `initialize`, if still held.
    pub closed spec fn config(&self) -> Option<ComponentConfig> {
        self.config
    }

    /// A component that has not been initialized.
    pub fn new() -> (r: MyComponent)
        ensures
            !r.ready(),
            r.config() is None,
    {
        MyComponent { config: None, initialized: false }
    }

    /// Whether the component has been initialized and not cleaned up.
    pub fn is_ready(&self) -> (r: bool)
        ensures
            r == self.ready(),
    {
        self.initialized && self.config.is_some()
    }

    /// Stores `config` and marks the component ready.
    pub fn initialize(&mut self, config: ComponentConfig) -> (r: Result<(), String>)
        ensures
            r is Ok,
            final(self).ready(),
            final(self).config() == Some(config),
    {
        self.config = Some(config);
        self.initialized = true;
        Ok(())
    }

    /// The message with its bytes in reverse order; an error when the
    /// component is not ready.
    pub fn process_message(&self, message: Vec<u8>) -> (r: Result<Vec<u8>, String>)
        ensures
            self.ready() ==> (r matches Ok(v) && v@ == message@.reverse()),
            !self.ready() ==> (r matches Err(e) && e@ == "Component not initialized"@),
    {
        if !(self.initialized && self.config.is_some()) {
            return Err("Component not initialized".to_string());
        }
        let mut response: Vec<u8> = Vec::new();
        let n = message.len();
        let mut i: usize = 0;
        while i < n
            invariant
                n == message@.len(),
                i <= n,
                response@ == message@.reverse().subrange(0, i as int),
            decreases n - i,
        {
            response.push(message[n - 1 - i]);
            assert(response@ =~= message@.reverse().subrange(0, i + 1));
            i = i + 1;
        }
        assert(response@ =~= message@.reverse());
        Ok(response)
    }

    /// Drops the stored configuration; the component is no longer ready.
    pub fn cleanup(&mut self) -> (r: Result<(), String>)
        ensures
            r is Ok,
            !final(self).ready(),
            final(self).config() is None,
    {
        self.config = None;
        self.initialized = false;
        Ok(())
    }
}

impl Component for MyComponent {
    fn initialize(&mut self, config: ComponentConfig) -> Result<(), String> {
        MyComponent::initialize(self, config)
    }

    fn process_message(&self, message: Vec<u8>) -> Result<Vec<u8>, String> {
        MyComponent::process_message(self, message)
    }

    fn cleanup(&mut self) -> Result<(), String> {
        MyComponent::cleanup(self)
    }
}

} // verus!
