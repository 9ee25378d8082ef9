//! Renders a module of the intermediate representation as one C source file.

use vstd::prelude::*;

use crate::ast::binary_operator_symbol;
use crate::backend::type_writer::{c_type, write_type};
use crate::ir::function::{Instruction, InstructionKind, IrFunction, IrType};
use crate::ir::value::{Value, ValueRef};
use crate::ir::{GlobalValue, IrModule};
use crate::text::{decimal, push_decimal, push_signed_decimal, signed_decimal, string_of};

verus! {

/// The line between the headers, the declarations and the definitions.
pub open spec fn separator_line() -> Seq<char> {
    "/* =================================================================== */\n"@
}

/// A value that the generator can write: it is in the pool, and a global it refers to
/// is in the module.
pub open spec fn value_ok(m: IrModule, v: ValueRef) -> bool {
    &&& v.0 < m.pool().len()
    &&& m.pool()[v.0 as int] matches Value::RefGlobal(g) ==> g.0 < m.globals().len()
}

/// How a value is written: an integer in decimal, a string as it is, a local slot as
/// `local_N`, a parameter as `param_N`, a global by its name, and the unit as
/// `(_unit){}`.
pub open spec fn value_text(m: IrModule, v: ValueRef) -> Seq<char> {
    match m.pool()[v.0 as int] {
        Value::ConstantInt(n) => signed_decimal(n as int),
        Value::ConstantString(s) => s@,
        Value::Ref(id) => "local_"@ + decimal(id.0 as nat),
        Value::RefParam(i) => "param_"@ + decimal(i as nat),
        Value::RefGlobal(g) => match m.globals()[g.0 as int] {
            GlobalValue::Constant(name) => name@,
            GlobalValue::Function(f) => f.name@,
        },
        Value::True => "true"@,
        Value::False => "false"@,
        Value::Unit => "(_unit){}"@,
    }
}

/// The values `args`, written and separated by `", "`.
pub open spec fn args_text(m: IrModule, args: Seq<ValueRef>) -> Seq<char>
    decreases args.len(),
{
    if args.len() == 0 {
        Seq::empty()
    } else if args.len() == 1 {
        value_text(m, args[0])
    } else {
        args_text(m, args.drop_last()) + ", "@ + value_text(m, args.last())
    }
}

/// An instruction that the generator can write: stores, calls and operations have a
/// destination, every value it uses can be written, and it is no local load.
pub open spec fn instruction_ok(m: IrModule, i: Instruction) -> bool {
    match i.1 {
        InstructionKind::Alloca { .. } => i.0 matches Some(t) ==> value_ok(m, t),
        InstructionKind::Store(v) => i.0 matches Some(t) && value_ok(m, t) && value_ok(m, v),
        InstructionKind::Return(v) => value_ok(m, v),
        InstructionKind::Call { callee, args } => i.0 matches Some(t) && value_ok(m, t) && value_ok(
            m,
            callee,
        ) && forall|j: int| 0 <= j < args@.len() ==> value_ok(m, #[trigger] args@[j]),
        InstructionKind::Binop { lhs, rhs, .. } => i.0 matches Some(t) && value_ok(m, t)
            && value_ok(m, lhs) && value_ok(m, rhs),
        InstructionKind::LoadLocal(_) => false,
    }
}

/// How an instruction is written, as one C statement.
pub open spec fn instruction_text(m: IrModule, i: Instruction) -> Seq<char> {
    match i.1 {
        InstructionKind::Alloca { type_ } => (match i.0 {
            Some(t) => "    auto "@ + value_text(m, t) + " = "@,
            None => Seq::empty(),
        }) + "("@ + c_type(type_) + "){0};\n"@,
        InstructionKind::Store(v) => "    "@ + value_text(m, i.0->0) + " = "@ + value_text(m, v)
            + ";\n"@,
        InstructionKind::Return(v) => "    return "@ + value_text(m, v) + ";\n"@,
        InstructionKind::Call { callee, args } => "    "@ + value_text(m, i.0->0) + " = "@
            + value_text(m, callee) + "("@ + args_text(m, args@) + ");\n"@,
        InstructionKind::Binop { op, lhs, rhs } => "    "@ + value_text(m, i.0->0) + " = "@
            + value_text(m, lhs) + " "@ + binary_operator_symbol(op) + " "@ + value_text(m, rhs)
            + ";\n"@,
        InstructionKind::LoadLocal(_) => Seq::empty(),
    }
}

/// The instructions `is`, written one after another.
pub open spec fn instructions_text(m: IrModule, is: Seq<Instruction>) -> Seq<char>
    decreases is.len(),
{
    if is.len() == 0 {
        Seq::empty()
    } else {
        instructions_text(m, is.drop_last()) + instruction_text(m, is.last())
    }
}

/// The first `n` parameters of types `ps`, written `type param_N` and separated by
/// `", "`.
pub open spec fn params_text(ps: Seq<IrType>, n: int) -> Seq<char>
    decreases n,
{
    if n <= 0 {
        Seq::empty()
    } else {
        params_text(ps, n - 1) + (if n - 1 != 0 {
            ", "@
        } else {
            Seq::empty()
        }) + c_type(ps[n - 1]) + " param_"@ + decimal((n - 1) as nat)
    }
}

/// The head of a function: its return type, name and parameters, up to the `)`.
pub open spec fn fn_head(f: IrFunction) -> Seq<char> {
    match f.type_ {
        IrType::Function { return_type, parameter_type } => "\n"@ + c_type(*return_type) + " "@
            + f.name@ + "("@ + params_text(parameter_type@, parameter_type@.len() as int),
        _ => Seq::empty(),
    }
}

/// The declaration of a function.
pub open spec fn declaration_text(f: IrFunction) -> Seq<char> {
    fn_head(f) + ");\n"@
}

/// The definition of a function: its head and its instructions in braces.
pub open spec fn definition_text(m: IrModule, f: IrFunction) -> Seq<char> {
    fn_head(f) + ") {\n"@ + instructions_text(m, f.instructions@) + "}\n"@
}

/// The declarations of the functions among the first `n` globals.
pub open spec fn declarations_text(m: IrModule, n: int) -> Seq<char>
    decreases n,
{
    if n <= 0 {
        Seq::empty()
    } else {
        declarations_text(m, n - 1) + (match m.globals()[n - 1] {
            GlobalValue::Function(f) => declaration_text(f),
            GlobalValue::Constant(_) => Seq::empty(),
        })
    }
}

/// The definitions of the functions among the first `n` globals.
pub open spec fn definitions_text(m: IrModule, n: int) -> Seq<char>
    decreases n,
{
    if n <= 0 {
        Seq::empty()
    } else {
        definitions_text(m, n - 1) + (match m.globals()[n - 1] {
            GlobalValue::Function(f) => definition_text(m, f),
            GlobalValue::Constant(_) => Seq::empty(),
        })
    }
}

/// A global the generator can write: a function of function type whose instructions
/// can all be written.
pub open spec fn global_ok(m: IrModule, g: GlobalValue) -> bool {
    match g {
        GlobalValue::Function(f) => f.type_ is Function && forall|j: int|
            0 <= j < f.instructions@.len() ==> instruction_ok(m, #[trigger] f.instructions@[j]),
        GlobalValue::Constant(_) => false,
    }
}

/// A module the generator can write: all its globals can be written.
pub open spec fn c_ready(m: IrModule) -> bool {
    forall|i: int| 0 <= i < m.globals().len() ==> global_ok(m, #[trigger] m.globals()[i])
}

/// The C source of a module: the headers, the declarations of its functions, then
/// their definitions, the three parts divided by a separator line.
pub open spec fn c_source(m: IrModule) -> Seq<char> {
    "#include <stdint.h>\n"@ + separator_line() + "typedef struct {} _unit;\n"@
        + "typedef void* _rawptr;\n"@ + declarations_text(m, m.globals().len() as int)
        + separator_line() + definitions_text(m, m.globals().len() as int)
}

/// Writes a module as C.
pub struct Cgenerator<'a> {
    headers: String,
    declarations: String,
    definitions: String,
    module: &'a IrModule,
}

/// Whether `v` can be written.
fn value_is_ok(m: &IrModule, v: ValueRef) -> (r: bool)
    ensures
        r == value_ok(*m, v),
{
    let pool = m.value_pool();
    if v.0 >= pool.len() {
        return false;
    }
    match &pool[v.0] {
        Value::RefGlobal(g) => g.0 < m.get_globals().len(),
        _ => true,
    }
}

/// Whether `i` can be written.
#[verifier::loop_isolation(false)]
fn instruction_is_ok(m: &IrModule, i: &Instruction) -> (r: bool)
    ensures
        r == instruction_ok(*m, *i),
{
    let target_ok = match i.0 {
        Some(t) => value_is_ok(m, t),
        None => false,
    };
    match &i.1 {
        InstructionKind::Alloca { .. } => i.0.is_none() || target_ok,
        InstructionKind::Store(v) => target_ok && value_is_ok(m, *v),
        InstructionKind::Return(v) => value_is_ok(m, *v),
        InstructionKind::Call { callee, args } => {
            if !(target_ok && value_is_ok(m, *callee)) {
                return false;
            }
            let mut j: usize = 0;
            while j < args.len()
                invariant
                    j <= args@.len(),
                    forall|k: int| 0 <= k < j ==> value_ok(*m, #[trigger] args@[k]),
                decreases args@.len() - j,
            {
                if !value_is_ok(m, args[j]) {
                    return false;
                }
                j = j + 1;
            }
            true
        },
        InstructionKind::Binop { lhs, rhs, .. } => target_ok && value_is_ok(m, *lhs) && value_is_ok(
            m,
            *rhs,
        ),
        InstructionKind::LoadLocal(_) => false,
    }
}

/// Whether the generator can write `m`: every global is a function of function type
/// whose instructions can be written.
#[verifier::loop_isolation(false)]
pub fn c_generatable(m: &IrModule) -> (r: bool)
    ensures
        r == c_ready(*m),
{
    let globals = m.get_globals();
    let mut i: usize = 0;
    while i < globals.len()
        invariant
            i <= globals@.len(),
            globals@ == m.globals(),
            forall|k: int| 0 <= k < i ==> global_ok(*m, #[trigger] m.globals()[k]),
        decreases globals@.len() - i,
    {
        match &globals[i] {
            GlobalValue::Function(f) => {
                match f.type_ {
                    IrType::Function { .. } => {},
                    _ => {
                        return false;
                    },
                }
                let mut j: usize = 0;
                while j < f.instructions.len()
                    invariant
                        j <= f.instructions@.len(),
                        forall|k: int| 0 <= k < j ==> instruction_ok(*m, #[trigger] f.instructions@[k]),
                    decreases f.instructions@.len() - j,
                {
                    if !instruction_is_ok(m, &f.instructions[j]) {
                        return false;
                    }
                    j = j + 1;
                }
            },
            GlobalValue::Constant(_) => {
                return false;
            },
        }
        i = i + 1;
    }
    true
}

impl<'a> Cgenerator<'a> {
    /// The C source of `module`.
    pub fn generate(module: &'a IrModule) -> (r: String)
        requires
            c_ready(*module),
        ensures
            r@ == c_source(*module),
    {
        let mut generator = Cgenerator {
            headers: String::new(),
            definitions: String::new(),
            declarations: String::new(),
            module,
        };
        generator.write_hd(string_of("#include <stdint.h>\n"));
        generator.write_decl(string_of("typedef struct {} _unit;\n"));
        generator.write_decl(string_of("typedef void* _rawptr;\n"));
        let ghost decl_start = generator.declarations@;
        let globals = module.get_globals();
        let mut i: usize = 0;
        while i < globals.len()
            invariant
                i <= globals@.len(),
                globals@ == module.globals(),
                generator.module == module,
                c_ready(*module),
                generator.declarations@ == decl_start + declarations_text(*module, i as int),
                generator.headers@ == "#include <stdint.h>\n"@,
                generator.definitions@ == Seq::<char>::empty(),
            decreases globals@.len() - i,
        {
            match &globals[i] {
                GlobalValue::Function(function) => generator.declare_function(function),
                GlobalValue::Constant(_) => {
                    assert(global_ok(*module, module.globals()[i as int]));
                },
            }
            assert(generator.declarations@ =~= decl_start + declarations_text(*module, i + 1));
            i = i + 1;
        }
        let mut i: usize = 0;
        while i < globals.len()
            invariant
                i <= globals@.len(),
                globals@ == module.globals(),
                generator.module == module,
                c_ready(*module),
                generator.declarations@ == decl_start + declarations_text(
                    *module,
                    module.globals().len() as int,
                ),
                generator.headers@ == "#include <stdint.h>\n"@,
                generator.definitions@ == definitions_text(*module, i as int),
            decreases globals@.len() - i,
        {
            match &globals[i] {
                GlobalValue::Function(function) => {
                    assert(global_ok(*module, module.globals()[i as int]));
                    generator.gen_function(function);
                },
                GlobalValue::Constant(_) => {
                    assert(global_ok(*module, module.globals()[i as int]));
                },
            }
            assert(generator.definitions@ =~= definitions_text(*module, i + 1));
            i = i + 1;
        }
        let mut out = String::new();
        out.append(generator.headers.as_str());
        out.append("/* =================================================================== */\n");
        out.append(generator.declarations.as_str());
        out.append("/* =================================================================== */\n");
        out.append(generator.definitions.as_str());
        assert(out@ =~= c_source(*module));
        out
    }

    fn write_decl(&mut self, s: String)
        ensures
            final(self).declarations@ == old(self).declarations@ + s@,
            final(self).headers == old(self).headers,
            final(self).definitions == old(self).definitions,
            final(self).module == old(self).module,
    {
        self.declarations.append(s.as_str());
    }

    fn write_def(&mut self, s: String)
        ensures
            final(self).definitions@ == old(self).definitions@ + s@,
            final(self).headers == old(self).headers,
            final(self).declarations == old(self).declarations,
            final(self).module == old(self).module,
    {
        self.definitions.append(s.as_str());
    }

    fn write_hd(&mut self, s: String)
        ensures
            final(self).headers@ == old(self).headers@ + s@,
            final(self).declarations == old(self).declarations,
            final(self).definitions == old(self).definitions,
            final(self).module == old(self).module,
    {
        self.headers.append(s.as_str());
    }

    /// The head of `function` up to the `)`.
    fn function_head(function: &IrFunction) -> (r: String)
        requires
            function.type_ is Function,
        ensures
            r@ == fn_head(*function),
    {
        match &function.type_ {
            IrType::Function { return_type, parameter_type } => {
                let mut out = string_of("\n");
                let ret = write_type(return_type);
                out.append(ret.as_str());
                out.append(" ");
                out.append(function.get_name());
                out.append("(");
                let ghost head = out@;
                let mut index: usize = 0;
                while index < parameter_type.len()
                    invariant
                        index <= parameter_type@.len(),
                        out@ == head + params_text(parameter_type@, index as int),
                    decreases parameter_type@.len() - index,
                {
                    if index != 0 {
                        out.append(", ");
                    }
                    let p = write_type(&parameter_type[index]);
                    out.append(p.as_str());
                    out.append(" param_");
                    push_decimal(&mut out, index as u64);
                    assert(out@ =~= head + params_text(parameter_type@, index + 1));
                    index = index + 1;
                }
                out
            },
            _ => String::new(),
        }
    }

    fn declare_function(&mut self, function: &IrFunction)
        requires
            function.type_ is Function,
        ensures
            final(self).declarations@ == old(self).declarations@ + declaration_text(*function),
            final(self).headers == old(self).headers,
            final(self).definitions == old(self).definitions,
            final(self).module == old(self).module,
    {
        let mut head = Self::function_head(function);
        head.append(");\n");
        self.write_decl(head);
        assert(self.declarations@ =~= old(self).declarations@ + declaration_text(*function));
    }

    fn gen_function(&mut self, function: &IrFunction)
        requires
            function.type_ is Function,
            forall|j: int|
                0 <= j < function.instructions@.len() ==> instruction_ok(
                    *old(self).module,
                    #[trigger] function.instructions@[j],
                ),
        ensures
            final(self).definitions@ == old(self).definitions@ + definition_text(
                *old(self).module,
                *function,
            ),
            final(self).headers == old(self).headers,
            final(self).declarations == old(self).declarations,
            final(self).module == old(self).module,
    {
        let mut head = Self::function_head(function);
        head.append(") {\n");
        self.write_def(head);
        let ghost start = self.definitions@;
        let mut i: usize = 0;
        while i < function.instructions.len()
            invariant
                i <= function.instructions@.len(),
                self.module == old(self).module,
                self.headers == old(self).headers,
                self.declarations == old(self).declarations,
                forall|j: int|
                    0 <= j < function.instructions@.len() ==> instruction_ok(
                        *old(self).module,
                        #[trigger] function.instructions@[j],
                    ),
                self.definitions@ == start + instructions_text(
                    *old(self).module,
                    function.instructions@.take(i as int),
                ),
            decreases function.instructions@.len() - i,
        {
            self.gen_instruction(&function.instructions[i]);
            proof {
                assert(function.instructions@.take(i + 1).drop_last() =~= function.instructions@.take(
                    i as int,
                ));
            }
            assert(self.definitions@ =~= start + instructions_text(
                *old(self).module,
                function.instructions@.take(i + 1),
            ));
            i = i + 1;
        }
        assert(function.instructions@.take(function.instructions@.len() as int)
            =~= function.instructions@);
        self.write_def(string_of("}\n"));
        assert(self.definitions@ =~= old(self).definitions@ + definition_text(
            *old(self).module,
            *function,
        ));
    }

    fn gen_instruction(&mut self, instruction: &Instruction)
        requires
            instruction_ok(*old(self).module, *instruction),
        ensures
            final(self).definitions@ == old(self).definitions@ + instruction_text(
                *old(self).module,
                *instruction,
            ),
            final(self).headers == old(self).headers,
            final(self).declarations == old(self).declarations,
            final(self).module == old(self).module,
    {
        let mut out = String::new();
        match &instruction.1 {
            InstructionKind::Alloca { type_ } => {
                if let Some(target) = instruction.0 {
                    out.append("    auto ");
                    let t = self.write_value(target);
                    out.append(t.as_str());
                    out.append(" = ");
                }
                out.append("(");
                let ty = write_type(type_);
                out.append(ty.as_str());
                out.append("){0};\n");
            },
            InstructionKind::Store(v) => {
                let target = instruction.0.unwrap();
                out.append("    ");
                let t = self.write_value(target);
                out.append(t.as_str());
                out.append(" = ");
                let s = self.write_value(*v);
                out.append(s.as_str());
                out.append(";\n");
            },
            InstructionKind::Return(v) => {
                out.append("    return ");
                let s = self.write_value(*v);
                out.append(s.as_str());
                out.append(";\n");
            },
            InstructionKind::Call { callee, args } => {
                let target = instruction.0.unwrap();
                out.append("    ");
                let t = self.write_value(target);
                out.append(t.as_str());
                out.append(" = ");
                let c = self.write_value(*callee);
                out.append(c.as_str());
                out.append("(");
                let ghost head = out@;
                let mut idx: usize = 0;
                while idx < args.len()
                    invariant
                        idx <= args@.len(),
                        self.module == old(self).module,
                        forall|j: int| 0 <= j < args@.len() ==> value_ok(*self.module, #[trigger] args@[j]),
                        out@ == head + args_text(*self.module, args@.take(idx as int)),
                    decreases args@.len() - idx,
                {
                    let ghost prev = args@.take(idx as int);
                    if idx != 0 {
                        out.append(", ");
                    }
                    let a = self.write_value(args[idx]);
                    out.append(a.as_str());
                    proof {
                        let next = args@.take(idx + 1);
                        assert(next.drop_last() =~= prev);
                        assert(next.last() == args@[idx as int]);
                        if idx == 0 {
                            assert(next.len() == 1);
                        }
                    }
                    assert(out@ =~= head + args_text(*self.module, args@.take(idx + 1)));
                    idx = idx + 1;
                }
                assert(args@.take(args@.len() as int) =~= args@);
                out.append(");\n");
            },
            InstructionKind::Binop { op, lhs, rhs } => {
                let target = instruction.0.unwrap();
                out.append("    ");
                let t = self.write_value(target);
                out.append(t.as_str());
                out.append(" = ");
                let l = self.write_value(*lhs);
                out.append(l.as_str());
                out.append(" ");
                out.append(op.symbol());
                out.append(" ");
                let r = self.write_value(*rhs);
                out.append(r.as_str());
                out.append(";\n");
            },
            InstructionKind::LoadLocal(_) => {},
        }
        assert(out@ =~= instruction_text(*self.module, *instruction));
        self.write_def(out);
    }

    /// How `value` is written.
    fn write_value(&self, value: ValueRef) -> (r: String)
        requires
            value_ok(*self.module, value),
        ensures
            r@ == value_text(*self.module, value),
    {
        let pool = self.module.value_pool();
        match &pool[value.0] {
            Value::ConstantInt(v) => {
                let mut s = String::new();
                push_signed_decimal(&mut s, *v);
                assert(s@ =~= signed_decimal(*v as int));
                s
            },
            Value::ConstantString(v) => string_of(v.as_str()),
            Value::Ref(id) => {
                let mut s = string_of("local_");
                push_decimal(&mut s, id.0 as u64);
                s
            },
            Value::RefParam(id) => {
                let mut s = string_of("param_");
                push_decimal(&mut s, *id as u64);
                s
            },
            Value::RefGlobal(id) => {
                let globals = self.module.get_globals();
                match &globals[id.0] {
                    GlobalValue::Constant(name) => string_of(name.as_str()),
                    GlobalValue::Function(function) => string_of(function.get_name()),
                }
            },
            Value::True => string_of("true"),
            Value::False => string_of("false"),
            Value::Unit => string_of("(_unit){}"),
        }
    }
}

/// The C source declares, ahead of everything else, the names it writes the unit type
/// and untyped pointers with, and it writes the unit value as a literal of that type.
pub proof fn law_c_types_declared(m: IrModule, v: ValueRef)
    ensures
        c_source(m) == "#include <stdint.h>\n"@ + separator_line() + "typedef struct {} "@ + c_type(
            IrType::Unit,
        ) + ";\n"@ + "typedef void* "@ + c_type(IrType::Pointer) + ";\n"@ + declarations_text(
            m,
            m.globals().len() as int,
        ) + separator_line() + definitions_text(m, m.globals().len() as int),
        m.pool()[v.0 as int] == Value::Unit ==> value_text(m, v) == "("@ + c_type(IrType::Unit)
            + "){}"@,
{
    reveal_strlit("typedef struct {} _unit;\n");
    reveal_strlit("typedef void* _rawptr;\n");
    reveal_strlit("typedef struct {} ");
    reveal_strlit("typedef void* ");
    reveal_strlit(";\n");
    reveal_strlit("_unit");
    reveal_strlit("_rawptr");
    reveal_strlit("(_unit){}");
    reveal_strlit("(");
    reveal_strlit("){}");
    assert("typedef struct {} _unit;\n"@ =~= "typedef struct {} "@ + c_type(IrType::Unit) + ";\n"@);
    assert("typedef void* _rawptr;\n"@ =~= "typedef void* "@ + c_type(IrType::Pointer) + ";\n"@);
    assert("(_unit){}"@ =~= "("@ + c_type(IrType::Unit) + "){}"@);
    let d = declarations_text(m, m.globals().len() as int);
    let e = definitions_text(m, m.globals().len() as int);
    let h = "#include <stdint.h>\n"@ + separator_line();
    assert(c_source(m) =~= h + ("typedef struct {} "@ + c_type(IrType::Unit) + ";\n"@) + (
    "typedef void* "@ + c_type(IrType::Pointer) + ";\n"@) + d + separator_line() + e);
}

} // verus!
