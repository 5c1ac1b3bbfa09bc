//! Static service metadata: a service has a name, a protocol name and an
//! ordered table of method descriptors.  Routing addresses a method only
//! by its wire name; the human name is diagnostic.

use vstd::prelude::*;

use vstd::string::StringExecFns;

verus! {

/// Static metadata of one method: its human name, its wire name, and the
/// erased identities of its input and output types.
#[derive(Debug)]
pub struct MethodDescriptor {
    /// The human-readable method name.
    pub name: String,
    /// The wire name the method is addressed by.
    pub proto_name: String,
    /// The erased identity of the input type.
    pub input_type: u64,
    /// The erased identity of the output type.
    pub output_type: u64,
}

impl Clone for MethodDescriptor {
    /// A clone describes the same method.
    fn clone(&self) -> (r: Self)
        ensures
            r.name@ == self.name@,
            r.proto_name@ == self.proto_name@,
            r.input_type == self.input_type,
            r.output_type == self.output_type,
    {
        MethodDescriptor {
            name: self.name.clone(),
            proto_name: self.proto_name.clone(),
            input_type: self.input_type,
            output_type: self.output_type,
        }
    }
}

/// Static metadata of one service: its names and its method table.
/// Generated once and never mutated.
#[derive(Debug)]
pub struct ServiceDescriptor {
    /// The human-readable service name.
    pub name: String,
    /// The protobuf package the service lives in.
    pub package: String,
    /// The wire name of the service inside its package.
    pub proto_name: String,
    /// The ordered method table.
    pub methods: Vec<MethodDescriptor>,
}

impl ServiceDescriptor {
    /// The full wire name a request must carry to address this service.
    pub open spec fn spec_full_name(self) -> Seq<char> {
        self.package@ + "."@ + self.proto_name@
    }

    /// Whether some method in the table carries this wire name.
    pub open spec fn spec_has_method(self, name: Seq<char>) -> bool {
        exists|j: int|
            0 <= j < self.methods@.len() && (#[trigger] self.methods@[j]).proto_name@ == name
    }

    /// Returns the method table.
    pub fn methods(&self) -> (r: &Vec<MethodDescriptor>)
        ensures
            r == &self.methods,
    {
        &self.methods
    }

    /// Returns the human-readable service name.
    pub fn name(&self) -> (r: &String)
        ensures
            r == &self.name,
    {
        &self.name
    }

    /// Returns the service's wire name inside its package.
    pub fn proto_name(&self) -> (r: &String)
        ensures
            r == &self.proto_name,
    {
        &self.proto_name
    }

    /// Builds the full wire name of this service.
    pub fn full_name(&self) -> (r: String)
        ensures
            r@ == self.spec_full_name(),
    {
        let mut r = String::from_str(self.package.as_str());
        r.append(".");
        r.append(self.proto_name.as_str());
        r
    }

    /// Finds the first method whose wire name is `name`.
    pub fn find_method(&self, name: &String) -> (r: Option<usize>)
        ensures
            match r {
                Some(i) => {
                    &&& i < self.methods@.len()
                    &&& self.methods@[i as int].proto_name@ == name@
                    &&& forall|j: int|
                        0 <= j < i ==> (#[trigger] self.methods@[j]).proto_name@ != name@
                },
                None => !self.spec_has_method(name@),
            },
            r is Some <==> self.spec_has_method(name@),
    {
        let mut i: usize = 0;
        while i < self.methods.len()
            invariant
                i <= self.methods@.len(),
                forall|j: int| 0 <= j < i ==> (#[trigger] self.methods@[j]).proto_name@ != name@,
            decreases self.methods@.len() - i,
        {
            if self.methods[i].proto_name.eq(name) {
                return Some(i);
            }
            i = i + 1;
        }
        None
    }
}

} // verus!
