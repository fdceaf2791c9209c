use vstd::prelude::*;
use crate::value::{ObjHandle, Value, PulseError, PulseResult, text};
use crate::object::{Object, Class, BoundMethod};
use crate::namemap::NameMap;
use crate::heap::Heap;
use crate::vm::{VM, VMStatus, status_is_running, stack_below, object_of, method_closure, fresh_obj, allocated, env_eq, updated_obj};

verus! {

broadcast use vstd::std_specs::vec::group_vec_axioms;

/// The directory part of a path, as `std::path::Path::parent` gives it.
pub uninterp spec fn path_parent(path: Seq<char>) -> Option<Seq<char>>;

/// A path joined onto a base, as `std::path::Path::join` gives it.
pub uninterp spec fn path_join(base: Seq<char>, path: Seq<char>) -> Seq<char>;

/// `Path::new(path).parent()`, as text.
#[verifier::external_body]
fn parent_of(path: &str) -> (r: Option<String>)
    ensures
        match r {
            Some(p) => path_parent(path@) == Some(p@),
            None => path_parent(path@) is None,
        },
{
    std::path::Path::new(path).parent().map(|p| p.to_string_lossy().to_string())
}

/// `Path::new(base).join(path)`, as text.
#[verifier::external_body]
fn joined(base: &str, path: &str) -> (r: String)
    ensures
        r@ == path_join(base@, path@),
{
    std::path::Path::new(base).join(path).to_string_lossy().to_string()
}

/// The path names a file relative to the importing module.
pub open spec fn is_relative(path: Seq<char>) -> bool {
    (path.len() >= 2 && path.take(2) == "./"@) || (path.len() >= 3 && path.take(3) == "../"@)
}

/// Where an import of `path` from a module at `source` leads: a relative
/// path is joined to the module's directory, any other path stays.
pub open spec fn resolved_path(source: Option<Seq<char>>, path: Seq<char>) -> Seq<char> {
    if is_relative(path) {
        match source {
            Some(base) => match path_parent(base) {
                Some(dir) => path_join(dir, path),
                None => path,
            },
            None => path,
        }
    } else {
        path
    }
}

/// The source path of the function the innermost frame runs.
pub open spec fn current_source(vm: VM) -> Option<Seq<char>> {
    if vm.frames@.len() > 0 {
        match vm.closure_at(vm.frames@.last().closure) {
            Some(c) => match c.function.source_path {
                Some(p) => Some(p@),
                None => None,
            },
            None => None,
        }
    } else {
        None
    }
}

/// `s` begins with the characters of `prefix`.
fn starts_with(s: &str, prefix: &str) -> (b: bool)
    ensures
        b == (s@.len() >= prefix@.len() && s@.take(prefix@.len() as int) == prefix@),
{
    let a = crate::text::chars_of(s);
    let p = crate::text::chars_of(prefix);
    if a.len() < p.len() {
        return false;
    }
    let mut i: usize = 0;
    while i < p.len()
        invariant
            i <= p@.len(),
            p@.len() <= a@.len(),
            a@ == s@,
            p@ == prefix@,
            forall|j: int| 0 <= j < i ==> a@[j] == p@[j],
        decreases p@.len() - i,
    {
        if a[i] != p[i] {
            assert(s@.take(prefix@.len() as int)[i as int] != prefix@[i as int]);
            return false;
        }
        i = i + 1;
    }
    assert(s@.take(prefix@.len() as int) =~= prefix@);
    true
}

impl VM {
    /// Resolves an import path against the running module's source path.
    pub fn resolve_path(&self, path: &str) -> (r: String)
        requires
            self.wf(),
        ensures
            r@ == resolved_path(current_source(*self), path@),
    {
        proof {
            reveal_strlit("./");
            reveal_strlit("../");
        }
        let rel = starts_with(path, "./") || starts_with(path, "../");
        if rel && self.frames.len() > 0 {
            match self.heap.get(self.frames[self.frames.len() - 1].closure) {
                Some(Object::Closure(c)) => match &c.function.source_path {
                    Some(base) => match parent_of(base.as_str()) {
                        Some(dir) => {
                            return joined(dir.as_str(), path);
                        },
                        None => {},
                    },
                    None => {},
                },
                _ => {},
            }
        }
        text(path)
    }

    /// Pushes the module loaded from `resolved` if there is one; otherwise
    /// asks the host to load it.
    pub fn import_resolved(&mut self, resolved: String) -> (r: PulseResult<VMStatus>)
        requires
            old(self).wf(),
        ensures
            final(self).wf(),
            env_eq(*final(self), *old(self)),
            final(self).heap == old(self).heap,
            if old(self).loaded_modules@.dom().contains(resolved@) {
                status_is_running(r) && final(self).stack@ == old(self).stack@.push(Value::Obj(old(self).loaded_modules@[resolved@]))
            } else {
                r matches Ok(VMStatus::Import(p)) && p@ == resolved@ && final(self).stack == old(self).stack
            },
    {
        match self.loaded_modules.get(resolved.as_str()) {
            Some(h) => {
                let h = *h;
                self.stack.push(Value::Obj(h));
                Ok(VMStatus::Running)
            },
            None => Ok(VMStatus::Import(resolved)),
        }
    }

    /// What `op_import` does, from `before` to `after`, giving `r`.
    pub open spec fn import_effect(before: VM, after: VM, r: PulseResult<VMStatus>, path: String) -> bool {
        &&& (env_eq(after, before))
        &&& (after.heap == before.heap)
        &&& (({
                let resolved = resolved_path(current_source(before), path@);
                if before.loaded_modules@.dom().contains(resolved) {
                    status_is_running(r) && after.stack@ == before.stack@.push(Value::Obj(before.loaded_modules@[resolved]))
                } else {
                    r matches Ok(VMStatus::Import(p)) && p@ == resolved && after.stack == before.stack
                }
            }))
    }

    /// `Import`: resolves the path and pushes the module if it is loaded,
    /// or asks the host to load it.
    pub(crate) fn op_import(&mut self, path: String) -> (r: PulseResult<VMStatus>)
        requires
            old(self).wf(),
        ensures
            final(self).wf(),
            env_eq(*final(self), *old(self)),
            final(self).heap == old(self).heap,
            ({
                let resolved = resolved_path(current_source(*old(self)), path@);
                if old(self).loaded_modules@.dom().contains(resolved) {
                    status_is_running(r) && final(self).stack@ == old(self).stack@.push(Value::Obj(old(self).loaded_modules@[resolved]))
                } else {
                    r matches Ok(VMStatus::Import(p)) && p@ == resolved && final(self).stack == old(self).stack
                }
            }),
    {
        let resolved = self.resolve_path(path.as_str());
        self.import_resolved(resolved)
    }

    /// What `op_build_class` does, from `before` to `after`, giving `r`.
    pub open spec fn build_class_effect(before: VM, after: VM, r: PulseResult<VMStatus>, name: String, superclass: Option<String>) -> bool {
        &&& (env_eq(after, before))
        &&& (status_is_running(r))
        &&& (after.stack@.drop_last() == before.stack@)
        &&& (after.stack@.len() == before.stack@.len() + 1)
        &&& (({
                &&& after.stack@.last() matches Value::Obj(h)
                &&& fresh_obj(before.heap, after.heap, h)
                &&& after.heap.live()[h.0 as int] matches Object::Class(c)
                &&& c.name@ == name@
                &&& c.methods@ == Map::<Seq<char>, Value>::empty()
                &&& c.superclass == superclass
            }))
    }

    /// `BuildClass`: pushes a new class of that name with no methods.
    pub(crate) fn op_build_class(&mut self, name: String, superclass: Option<String>) -> (r: PulseResult<VMStatus>)
        requires
            old(self).wf(),
        ensures
            final(self).wf(),
            env_eq(*final(self), *old(self)),
            status_is_running(r),
            final(self).stack@.drop_last() == old(self).stack@,
            final(self).stack@.len() == old(self).stack@.len() + 1,
            ({
                &&& final(self).stack@.last() matches Value::Obj(h)
                &&& fresh_obj(old(self).heap, final(self).heap, h)
                &&& final(self).heap.live()[h.0 as int] matches Object::Class(c)
                &&& c.name@ == name@
                &&& c.methods@ == Map::<Seq<char>, Value>::empty()
                &&& c.superclass == superclass
            }),
    {
        let ghost h0 = self.heap;
        let h = self.heap.allocate(Object::Class(Class { name, methods: NameMap::new(), superclass }));
        proof {
            assert(self.heap.live() =~= h0.live().insert(h.0 as int, self.heap.live()[h.0 as int]));
        }
        self.stack.push(Value::Obj(h));
        Ok(VMStatus::Running)
    }

    /// What `op_get_super` does, from `before` to `after`, giving `r`.
    pub open spec fn get_super_effect(before: VM, after: VM, r: PulseResult<VMStatus>, name: String) -> bool {
        &&& (env_eq(after, before))
        &&& (before.stack@.len() < 2 ==> r is Err)
        &&& (before.stack@.len() >= 2 ==> ({
                let receiver = before.stack@[before.stack@.len() - 2];
                let sup = before.stack@.last();
                let rest = stack_below(before.stack@, 2);
                match object_of(before.heap, sup) {
                    Some(Object::Class(cl)) => if cl.methods@.dom().contains(name@) {
                        match method_closure(before.heap, cl.methods@[name@]) {
                            Some(c) => {
                                &&& status_is_running(r)
                                &&& after.stack@.drop_last() == rest
                                &&& after.stack@.len() == rest.len() + 1
                                &&& after.stack@.last() matches Value::Obj(bh)
                                &&& fresh_obj(before.heap, after.heap, bh)
                                &&& after.heap.live()[bh.0 as int] matches Object::BoundMethod(b)
                                &&& b.receiver == receiver
                                &&& b.method == c.function
                            },
                            None => crate::value::is_runtime_error(r),
                        }
                    } else {
                        crate::value::is_runtime_error(r)
                    },
                    Some(_) => crate::value::is_type_mismatch(r),
                    None => crate::value::is_type_mismatch(r),
                }
            }))
    }

    /// `GetSuper`: pops the superclass and the receiver and pushes the
    /// superclass's method of that name bound to the receiver.
    pub(crate) fn op_get_super(&mut self, name: String) -> (r: PulseResult<VMStatus>)
        requires
            old(self).wf(),
        ensures
            final(self).wf(),
            env_eq(*final(self), *old(self)),
            old(self).stack@.len() < 2 ==> r is Err,
            old(self).stack@.len() >= 2 ==> ({
                let receiver = old(self).stack@[old(self).stack@.len() - 2];
                let sup = old(self).stack@.last();
                let rest = stack_below(old(self).stack@, 2);
                match object_of(old(self).heap, sup) {
                    Some(Object::Class(cl)) => if cl.methods@.dom().contains(name@) {
                        match method_closure(old(self).heap, cl.methods@[name@]) {
                            Some(c) => {
                                &&& status_is_running(r)
                                &&& final(self).stack@.drop_last() == rest
                                &&& final(self).stack@.len() == rest.len() + 1
                                &&& final(self).stack@.last() matches Value::Obj(bh)
                                &&& fresh_obj(old(self).heap, final(self).heap, bh)
                                &&& final(self).heap.live()[bh.0 as int] matches Object::BoundMethod(b)
                                &&& b.receiver == receiver
                                &&& b.method == c.function
                            },
                            None => crate::value::is_runtime_error(r),
                        }
                    } else {
                        crate::value::is_runtime_error(r)
                    },
                    Some(_) => crate::value::is_type_mismatch(r),
                    None => crate::value::is_type_mismatch(r),
                }
            }),
    {
        let (receiver, sup) = self.pop_two()?;
        let handle = match sup {
            Value::Obj(h) => h,
            _ => {
                return Err(PulseError::TypeMismatch { expected: text("superclass"), got: sup.kind_name() });
            },
        };
        proof { self.heap.lemma_wf(); }
        let method_val = match self.heap.get(handle) {
            Some(Object::Class(cl)) => match cl.methods.get(name.as_str()) {
                Some(v) => *v,
                None => {
                    return Err(PulseError::RuntimeError(text("Undefined property in superclass")));
                },
            },
            _ => {
                return Err(PulseError::TypeMismatch { expected: text("superclass"), got: text("other object") });
            },
        };
        let function = match method_val {
            Value::Obj(mh) => match self.heap.get(mh) {
                Some(Object::Closure(c)) => c.function.copy(),
                _ => {
                    return Err(PulseError::RuntimeError(text("Invalid method")));
                },
            },
            _ => {
                return Err(PulseError::RuntimeError(text("Invalid method")));
            },
        };
        let ghost h0 = self.heap;
        let bh = self.heap.allocate(Object::BoundMethod(BoundMethod { receiver, method: function }));
        proof {
            assert(self.heap.live() =~= h0.live().insert(bh.0 as int, self.heap.live()[bh.0 as int]));
        }
        self.stack.push(Value::Obj(bh));
        Ok(VMStatus::Running)
    }

    /// What `op_method` does, from `before` to `after`, giving `r`.
    pub open spec fn method_effect(before: VM, after: VM, r: PulseResult<VMStatus>, name: String) -> bool {
        &&& (env_eq(after, before))
        &&& (before.stack@.len() < 2 ==> r is Err)
        &&& (before.stack@.len() >= 2 ==> ({
                let method = before.stack@.last();
                let target = before.stack@[before.stack@.len() - 2];
                match object_of(before.heap, target) {
                    Some(Object::Class(cl)) => {
                        &&& status_is_running(r)
                        &&& after.stack@ == before.stack@.drop_last()
                        &&& updated_obj(before.heap, after.heap, target->Obj_0)
                        &&& after.heap.live()[target->Obj_0.0 as int] matches Object::Class(c2)
                        &&& c2.name@ == cl.name@
                        &&& c2.superclass == cl.superclass
                        &&& c2.methods@ == cl.methods@.insert(name@, method)
                    },
                    Some(_) => crate::value::is_runtime_error(r),
                    None => if target is Obj { crate::value::is_runtime_error(r) } else { crate::value::is_type_mismatch(r) },
                }
            }))
    }

    /// `Method`: pops a method value and adds it under the name to the class
    /// below it, which stays on the stack.
    pub(crate) fn op_method(&mut self, name: String) -> (r: PulseResult<VMStatus>)
        requires
            old(self).wf(),
        ensures
            final(self).wf(),
            env_eq(*final(self), *old(self)),
            old(self).stack@.len() < 2 ==> r is Err,
            old(self).stack@.len() >= 2 ==> ({
                let method = old(self).stack@.last();
                let target = old(self).stack@[old(self).stack@.len() - 2];
                match object_of(old(self).heap, target) {
                    Some(Object::Class(cl)) => {
                        &&& status_is_running(r)
                        &&& final(self).stack@ == old(self).stack@.drop_last()
                        &&& updated_obj(old(self).heap, final(self).heap, target->Obj_0)
                        &&& final(self).heap.live()[target->Obj_0.0 as int] matches Object::Class(c2)
                        &&& c2.name@ == cl.name@
                        &&& c2.superclass == cl.superclass
                        &&& c2.methods@ == cl.methods@.insert(name@, method)
                    },
                    Some(_) => crate::value::is_runtime_error(r),
                    None => if target is Obj { crate::value::is_runtime_error(r) } else { crate::value::is_type_mismatch(r) },
                }
            }),
    {
        let method = self.pop()?;
        if self.stack.len() == 0 {
            return Err(PulseError::StackUnderflow);
        }
        let target = self.stack[self.stack.len() - 1];
        let handle = match target {
            Value::Obj(h) => h,
            _ => {
                return Err(PulseError::TypeMismatch { expected: text("class"), got: target.kind_name() });
            },
        };
        proof { self.heap.lemma_wf(); }
        let is_class = match self.heap.get(handle) {
            Some(Object::Class(_)) => true,
            _ => false,
        };
        if !is_class {
            return Err(PulseError::RuntimeError(text("Expected class on stack for method definition")));
        }
        let ghost h0 = self.heap;
        let taken = self.heap.replace(handle, Object::List(Vec::new()));
        let updated = match taken {
            Ok(Object::Class(mut c)) => {
                c.methods.insert(name, method);
                Object::Class(c)
            },
            Ok(other) => other,
            Err(back) => back,
        };
        let _ = self.heap.replace(handle, updated);
        assert(self.heap.live() =~= h0.live().insert(handle.0 as int, self.heap.live()[handle.0 as int]));
        Ok(VMStatus::Running)
    }
}

} // verus!
