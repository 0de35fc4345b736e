//! The code generator.

use vstd::pervasive::unreached;
use vstd::prelude::*;

use crate::codegen::ast::{expr_size, exprs_size, stmt_size, stmts_size, Expr, ExprKind, Stmt};
use crate::codegen::model;
use crate::codegen::model::{completes, yields, State, Step};
use crate::codegen::register::{
    suffix, Register, ScratchRegisters, StackRegister, SCRATCH_REGISTERS,
};
use crate::codegen::text::{signed_string, unsigned_string};
use crate::common::environment::{Environment, NameMap};
use crate::common::error::{Error, ErrorKind};
use crate::common::token::{Token, TokenType};
use crate::common::types::{NEWTypes, Types};

verus! {

/// Generates assembly from checked statements.
pub struct Compiler {
    scratch: ScratchRegisters,
    output: String,
    env: Environment<Register>,
    function_name: Option<String>,
    label_index: usize,
    /// Checking finds out how much stack the variables of each function need.
    func_stack_size: NameMap<usize>,
    /// Offset from the base pointer where the last variable lives.
    pub current_bp_offset: usize,
}

impl View for Compiler {
    type V = State;

    closed spec fn view(&self) -> State {
        State {
            output: self.output@,
            in_use: self.scratch.in_use@,
            scopes: self.env.scopes(),
            function: match self.function_name {
                Some(name) => Some(name@),
                None => None,
            },
            labels: self.label_index as nat,
            stack_sizes: self.func_stack_size@,
            offset: self.current_bp_offset as nat,
        }
    }
}

/// The least multiple of `type_size` that is not less than `offset`.
pub fn align_by(offset: usize, type_size: usize) -> (aligned: usize)
    requires
        type_size > 0,
        model::aligned(offset as nat, type_size as nat) <= usize::MAX,
    ensures
        aligned == model::aligned(offset as nat, type_size as nat),
{
    let remainder: usize = offset % type_size;
    if remainder != 0 {
        offset + (type_size - remainder)
    } else {
        offset
    }
}

fn instruction(head: &str, t: &NEWTypes, gap: &str, source: &str, target: &str) -> (text: String)
    requires
        suffix(*t) is Some,
    ensures
        model::instruction(head@, Some(*t), gap@, Some(source@), Some(target@)) == Some(text@),
{
    head.to_owned().concat(t.suffix()).concat(gap).concat(source).concat(", ").concat(
        target,
    ).concat("\n")
}

fn short_instruction(head: &str, t: &NEWTypes, operand: &str) -> (text: String)
    requires
        suffix(*t) is Some,
    ensures
        model::short_instruction(head@, Some(*t), Some(operand@)) == Some(text@),
{
    head.to_owned().concat(t.suffix()).concat(" ").concat(operand).concat("\n")
}

fn label_line(label: usize) -> (text: String)
    ensures
        text@ == model::label_line(label as nat),
{
    "L".to_owned().concat(unsigned_string(label as u64).as_str()).concat(":\n")
}

fn jump_line(head: &str, label: usize) -> (text: String)
    ensures
        text@ == model::jump_line(head@, label as nat),
{
    head.to_owned().concat(unsigned_string(label as u64).as_str()).concat("\n")
}

/// Makes room for `size` bytes on the stack.
fn room(size: usize) -> (text: String)
    ensures
        text@ == model::room(size as nat),
{
    if size > 0 {
        "\tsubq    $".to_owned().concat(unsigned_string(size as u64).as_str()).concat(",%rsp\n")
    } else {
        let text = String::new();
        assert(text@ =~= Seq::empty());
        text
    }
}

/// Gives back `size` bytes of the stack.
fn room_back(size: usize) -> (text: String)
    ensures
        text@ == model::room_back(size as nat),
{
    if size > 0 {
        "\taddq    $".to_owned().concat(unsigned_string(size as u64).as_str()).concat(",%rsp\n")
    } else {
        let text = String::new();
        assert(text@ =~= Seq::empty());
        text
    }
}

/// Copies the flag in `%al` to where `place` is.
fn flag_line(place: &Register) -> (text: String)
    requires
        model::flag_line(*place) is Some,
    ensures
        model::flag_line(*place) == Some(text@),
{
    let t = place.get_type();
    match t {
        NEWTypes::Primitive(Types::Char) => {
            "\tmovb %al, ".to_owned().concat(place.name().as_str()).concat("\n")
        },
        _ => instruction("\tmovzb", &t, " ", "%al", place.name().as_str()),
    }
}

impl Compiler {
    /// A code generator that has not generated anything.
    pub fn new(func_stack_size: NameMap<usize>) -> (compiler: Self)
        ensures
            compiler@ == model::initial(func_stack_size@),
    {
        let compiler = Compiler {
            output: String::new(),
            scratch: ScratchRegisters::new(),
            current_bp_offset: 0,
            label_index: 0,
            env: Environment::new(None),
            function_name: None,
            func_stack_size,
        };
        assert(compiler@ =~= model::initial(func_stack_size@));
        compiler
    }

    /// The assembly so far.
    pub fn output(&self) -> (output: &str)
        ensures
            output@ == self@.output,
    {
        self.output.as_str()
    }

    /// Number of bytes of the stack frame that are taken.
    pub fn bp_offset(&self) -> (offset: usize)
        ensures
            offset == self@.offset,
    {
        self.current_bp_offset
    }

    fn emit(&mut self, text: &str)
        ensures
            final(self)@ == model::emit(old(self)@, text@),
    {
        self.output.append(text);
    }

    /// Puts a free scratch register to use.
    fn allocate(&mut self, type_decl: NEWTypes) -> (place: Register)
        requires
            model::has_free(old(self)@),
        ensures
            final(self)@ == model::allocate(old(self)@),
            place == model::free_register(old(self)@, type_decl),
    {
        Register::Scratch(self.scratch.scratch_alloc(), type_decl)
    }

    fn free(&mut self, place: &Register)
        requires
            model::freeable(*place),
        ensures
            final(self)@ == model::free(old(self)@, *place),
    {
        place.free(&mut self.scratch);
    }

    /// Where a variable lives.
    fn get_var(&self, name: &Token) -> (place: Register)
        requires
            !(model::variable(self@, *name) is Stuck),
        ensures
            model::variable(self@, *name) == Step::Done(self@, place),
    {
        match self.env.get_var(&name.unwrap_string()) {
            Some(place) => place.clone(),
            None => unreached(),
        }
    }

    fn create_label(&mut self) -> (label: usize)
        requires
            model::has_label(old(self)@),
        ensures
            label == old(self)@.labels,
            final(self)@ == model::next_label(old(self)@),
    {
        let result = self.label_index;
        self.label_index = result + 1;
        result
    }

    fn cg_literal_num(&mut self, num: i32) -> (result: Result<Register, Error>)
        requires
            !(model::literal(old(self)@, "\tmovl    $"@, num as int, Types::Int) is Stuck),
        ensures
            yields(
                result,
                final(self)@,
                model::literal(old(self)@, "\tmovl    $"@, num as int, Types::Int),
            ),
    {
        let reg = self.allocate(NEWTypes::Primitive(Types::Int));
        self.emit(
            "\tmovl    $".to_owned().concat(signed_string(num as i64).as_str()).concat(", ").concat(
                reg.name().as_str(),
            ).concat("\n").as_str(),
        );
        Ok(reg)
    }

    fn cg_literal_char(&mut self, num: i8) -> (result: Result<Register, Error>)
        requires
            !(model::literal(old(self)@, "\tmovb    $"@, num as int, Types::Char) is Stuck),
        ensures
            yields(
                result,
                final(self)@,
                model::literal(old(self)@, "\tmovb    $"@, num as int, Types::Char),
            ),
    {
        let reg = self.allocate(NEWTypes::Primitive(Types::Char));
        self.emit(
            "\tmovb    $".to_owned().concat(signed_string(num as i64).as_str()).concat(", ").concat(
                reg.name().as_str(),
            ).concat("\n").as_str(),
        );
        Ok(reg)
    }

    fn scratch_temp(&mut self, reg: Register) -> (result: Result<Register, Error>)
        requires
            !(model::move_to_scratch(old(self)@, reg) is Stuck),
        ensures
            yields(result, final(self)@, model::move_to_scratch(old(self)@, reg)),
    {
        let temp_scratch = self.allocate(reg.get_type());
        let text = instruction(
            "\tmov",
            &temp_scratch.get_type(),
            "    ",
            reg.name().as_str(),
            temp_scratch.name().as_str(),
        );
        self.emit(text.as_str());
        self.free(&reg);
        Ok(temp_scratch)
    }

    fn maybe_convert_stack_reg(&mut self, reg: Register) -> (result: Result<Register, Error>)
        requires
            !(model::load(old(self)@, reg) is Stuck),
        ensures
            yields(result, final(self)@, model::load(old(self)@, reg)),
    {
        if matches!(reg, Register::Stack(_, _)) {
            self.scratch_temp(reg)
        } else {
            Ok(reg)
        }
    }

    fn cg_bang(&mut self, reg: Register) -> (result: Result<Register, Error>)
        requires
            !(model::bang(old(self)@, reg) is Stuck),
        ensures
            yields(result, final(self)@, model::bang(old(self)@, reg)),
    {
        let text = instruction("\tcmp", &reg.get_type(), " ", "$0", reg.name().as_str()).concat(
            "\tsete %al\n",
        ).concat(flag_line(&reg).as_str());
        self.emit(text.as_str());
        Ok(reg)
    }

    fn cg_negate(&mut self, reg: Register) -> (result: Result<Register, Error>)
        requires
            !(model::negate(old(self)@, reg) is Stuck),
        ensures
            yields(result, final(self)@, model::negate(old(self)@, reg)),
    {
        let text = short_instruction("\tneg", &reg.get_type(), reg.name().as_str());
        self.emit(text.as_str());
        Ok(reg)
    }

    fn cg_address_at(&mut self, reg: Register) -> (result: Result<Register, Error>)
        requires
            !(model::address_of(old(self)@, reg) is Stuck),
        ensures
            yields(result, final(self)@, model::address_of(old(self)@, reg)),
    {
        let dest = self.allocate(NEWTypes::Pointer(Box::new(reg.get_type())));
        let text = "\tleaq    ".to_owned().concat(reg.name().as_str()).concat(", ").concat(
            dest.name().as_str(),
        ).concat("\n");
        self.emit(text.as_str());
        self.free(&reg);
        Ok(dest)
    }

    fn cg_deref_at_l(&mut self, reg: Register) -> (result: Result<Register, Error>)
        requires
            !(model::dereferenced_place(old(self)@, reg) is Stuck),
        ensures
            yields(result, final(self)@, model::dereferenced_place(old(self)@, reg)),
    {
        let reg = self.maybe_convert_stack_reg(reg)?;
        Ok(reg.convert_to_deref())
    }

    fn cg_deref_at(&mut self, reg: Register) -> (result: Result<Register, Error>)
        requires
            !(model::dereferenced(old(self)@, reg) is Stuck),
        ensures
            yields(result, final(self)@, model::dereferenced(old(self)@, reg)),
    {
        let dest = self.allocate(reg.get_type().deref_at().unwrap());
        let reg = self.maybe_convert_stack_reg(reg)?;
        let source = "(".to_owned().concat(reg.name().as_str()).concat(")");
        let text = instruction(
            "\tmov",
            &dest.get_type(),
            "    ",
            source.as_str(),
            dest.name().as_str(),
        );
        self.emit(text.as_str());
        self.free(&reg);
        Ok(dest)
    }

    fn cg_add(&mut self, left: Register, right: Register) -> (result: Result<Register, Error>)
        requires
            !(model::addition(old(self)@, left, right) is Stuck),
        ensures
            yields(result, final(self)@, model::addition(old(self)@, left, right)),
    {
        let text = instruction(
            "\tadd",
            &right.get_type(),
            " ",
            left.name().as_str(),
            right.name().as_str(),
        ).concat("\n");
        self.emit(text.as_str());
        self.free(&left);
        Ok(right)
    }

    fn cg_sub(&mut self, left: Register, right: Register) -> (result: Result<Register, Error>)
        requires
            !(model::subtraction(old(self)@, left, right) is Stuck),
        ensures
            yields(result, final(self)@, model::subtraction(old(self)@, left, right)),
    {
        let text = instruction(
            "\tsub",
            &right.get_type(),
            " ",
            right.name().as_str(),
            left.name().as_str(),
        ).concat("\n");
        self.emit(text.as_str());
        self.free(&right);
        Ok(left)
    }

    fn cg_mult(&mut self, left: Register, right: Register) -> (result: Result<Register, Error>)
        requires
            !(model::multiplication(old(self)@, left, right) is Stuck),
        ensures
            yields(result, final(self)@, model::multiplication(old(self)@, left, right)),
    {
        let text = instruction(
            "\timul",
            &right.get_type(),
            " ",
            left.name().as_str(),
            right.name().as_str(),
        ).concat("\n");
        self.emit(text.as_str());
        self.free(&left);
        Ok(right)
    }

    fn cg_div(&mut self, left: Register, right: Register) -> (result: Result<Register, Error>)
        requires
            !(model::division(old(self)@, left, right) is Stuck),
        ensures
            yields(result, final(self)@, model::division(old(self)@, left, right)),
    {
        let dividend = instruction(
            "\tmov",
            &left.get_type(),
            " ",
            left.name().as_str(),
            left.get_type().return_reg(),
        );
        let division = "\tcqo\n".to_owned().concat(
            short_instruction("\tidiv", &right.get_type(), right.name().as_str()).as_str(),
        );
        // the quotient is moved out of the return register
        let quotient = instruction(
            "\tmov",
            &right.get_type(),
            " ",
            right.get_type().return_reg(),
            right.name().as_str(),
        );
        self.emit(dividend.concat(division.as_str()).concat(quotient.as_str()).as_str());
        self.free(&left);
        Ok(right)
    }

    fn cg_comparison(
        &mut self,
        operator: &str,
        left: Register,
        right: Register,
    ) -> (result: Result<Register, Error>)
        requires
            !(model::comparison(old(self)@, operator@, left, right) is Stuck),
        ensures
            yields(result, final(self)@, model::comparison(old(self)@, operator@, left, right)),
    {
        let compared = instruction(
            "\tcmp",
            &right.get_type(),
            " ",
            right.name().as_str(),
            left.name().as_str(),
        );
        let set = "\t".to_owned().concat(operator).concat(" %al\n");
        self.emit(compared.concat(set.as_str()).concat(flag_line(&right).as_str()).as_str());
        self.free(&left);
        Ok(right)
    }

    fn cg_operator(
        &mut self,
        token: &Token,
        left_reg: Register,
        right_reg: Register,
    ) -> (result: Result<Register, Error>)
        requires
            !(model::operate(old(self)@, *token, left_reg, right_reg) is Stuck),
        ensures
            yields(result, final(self)@, model::operate(old(self)@, *token, left_reg, right_reg)),
    {
        match token.token {
            TokenType::Plus => self.cg_add(left_reg, right_reg),
            TokenType::Minus => self.cg_sub(left_reg, right_reg),
            TokenType::Star => self.cg_mult(left_reg, right_reg),
            TokenType::Slash => self.cg_div(left_reg, right_reg),
            TokenType::EqualEqual => self.cg_comparison("sete", left_reg, right_reg),
            TokenType::BangEqual => self.cg_comparison("setne", left_reg, right_reg),
            TokenType::Greater => self.cg_comparison("setg", left_reg, right_reg),
            TokenType::GreaterEqual => self.cg_comparison("setge", left_reg, right_reg),
            TokenType::Less => self.cg_comparison("setl", left_reg, right_reg),
            TokenType::LessEqual => self.cg_comparison("setle", left_reg, right_reg),
            _ => Err(Error::new(token, ErrorKind::Regular("invalid binary operator"))),
        }
    }

    /// Compares a value with 0, jumps to a label by `jump`, and gives the value
    /// up.
    fn cg_test(&mut self, value: &Register, jump: &str, label: usize)
        requires
            !(model::zero_test(old(self)@, *value, jump@, label as nat) is Stuck),
        ensures
            model::zero_test(old(self)@, *value, jump@, label as nat) == Step::Done(
                final(self)@,
                Register::Void,
            ),
    {
        let text = instruction(
            "\tcmp",
            &value.get_type(),
            "    ",
            "$0",
            value.name().as_str(),
        ).concat(jump_line(jump, label).as_str());
        self.emit(text.as_str());
        self.free(value);
    }

    /// The right operand of `||`, and the value of the whole.
    fn cg_or_right(&mut self, true_label: usize, right: Register) -> (result: Result<
        Register,
        Error,
    >)
        requires
            !(model::or_right(old(self)@, true_label as nat, right) is Stuck),
        ensures
            yields(result, final(self)@, model::or_right(old(self)@, true_label as nat, right)),
    {
        let false_label = self.create_label();

        // if right is false the whole is false
        self.cg_test(&right, "\tje    L", false_label);

        let done_label = self.create_label();
        let result = self.allocate(NEWTypes::Primitive(Types::Int));
        let name = result.name();
        // where the whole is true, skip the code for false
        let text = label_line(true_label).concat("\tmovl    $1, ").concat(name.as_str()).concat(
            "\n",
        ).concat(jump_line("\tjmp     L", done_label).as_str()).concat(
            label_line(false_label).as_str(),
        ).concat("\tmovl    $0, ").concat(name.as_str()).concat("\n").concat(
            label_line(done_label).as_str(),
        );
        self.emit(text.as_str());
        Ok(result)
    }

    /// The right operand of `&&`, and the value of the whole.
    fn cg_and_right(&mut self, false_label: usize, right: Register) -> (result: Result<
        Register,
        Error,
    >)
        requires
            !(model::and_right(old(self)@, false_label as nat, right) is Stuck),
        ensures
            yields(result, final(self)@, model::and_right(old(self)@, false_label as nat, right)),
    {
        self.cg_test(&right, "\tje    L", false_label);

        // where no jump was taken, the whole is true
        let true_label = self.create_label();
        let result = self.allocate(NEWTypes::Primitive(Types::Int));
        let name = result.name();
        let text = "\tmovl    $1, ".to_owned().concat(name.as_str()).concat("\n").concat(
            jump_line("\tjmp    L", true_label).as_str(),
        ).concat(label_line(false_label).as_str()).concat("\tmovl    $0, ").concat(
            name.as_str(),
        ).concat("\n").concat(label_line(true_label).as_str());
        self.emit(text.as_str());
        Ok(result)
    }

    /// Saves the scratch registers in use, and how many there are.
    fn pushes(&self) -> (pushed: (String, usize))
        ensures
            pushed.0@ == model::pushes(self@.in_use, SCRATCH_REGISTERS as nat),
            pushed.1 == model::count(self@.in_use, SCRATCH_REGISTERS as nat),
    {
        let mut text = String::new();
        let mut amount: usize = 0;
        let mut i: usize = 0;
        assert(text@ =~= model::pushes(self@.in_use, 0));
        while i < SCRATCH_REGISTERS
            invariant
                i <= SCRATCH_REGISTERS,
                amount <= i,
                text@ == model::pushes(self@.in_use, i as nat),
                amount == model::count(self@.in_use, i as nat),
            decreases SCRATCH_REGISTERS - i,
        {
            if self.scratch.in_use[i] {
                let line = "\tpushq   ".to_owned().concat(ScratchRegisters::name(i)).concat("\n");
                text = text.concat(line.as_str());
                amount = amount + 1;
            }
            i = i + 1;
        }
        (text, amount)
    }

    /// Restores the scratch registers in use, the last one first.
    fn pops(&self) -> (text: String)
        ensures
            text@ == model::pops(self@.in_use, SCRATCH_REGISTERS as nat),
    {
        let mut text = String::new();
        let mut i: usize = SCRATCH_REGISTERS;
        assert(text@ + model::pops(self@.in_use, i as nat) =~= model::pops(
            self@.in_use,
            SCRATCH_REGISTERS as nat,
        ));
        while i > 0
            invariant
                i <= SCRATCH_REGISTERS,
                text@ + model::pops(self@.in_use, i as nat) == model::pops(
                    self@.in_use,
                    SCRATCH_REGISTERS as nat,
                ),
            decreases i,
        {
            i = i - 1;
            if self.scratch.in_use[i] {
                let ghost before = text@;
                let line = "\tpopq   ".to_owned().concat(ScratchRegisters::name(i)).concat("\n");
                text = text.concat(line.as_str());
                assert(before + (line@ + model::pops(self@.in_use, i as nat)) =~= text@
                    + model::pops(self@.in_use, i as nat));
            }
        }
        assert(text@ + model::pops(self@.in_use, 0) =~= text@);
        text
    }

    /// A call of a function whose arguments are in their registers.
    fn cg_call_function(&mut self, func_name: &String, return_type: NEWTypes) -> (result: Result<
        Register,
        Error,
    >)
        requires
            !(model::call(old(self)@, func_name@, return_type) is Stuck),
        ensures
            yields(result, final(self)@, model::call(old(self)@, func_name@, return_type)),
    {
        // registers in use have to survive the call
        let (pushes, amount) = self.pushes();
        let call = "\tcall    _".to_owned().concat(func_name.as_str()).concat("\n");
        // the stack is aligned to 16 bytes, depending on the number of pushes
        let aligned_call = if amount % 2 != 0 {
            "\tsubq    $8,%rsp\n".to_owned().concat(call.as_str()).concat("\taddq    $8,%rsp\n")
        } else {
            call
        };
        let text = pushes.concat(aligned_call.as_str()).concat(self.pops().as_str());
        self.emit(text.as_str());

        if !return_type.is_void() {
            let return_reg = self.allocate(return_type.clone());
            let text = instruction(
                "\tmov",
                &return_type,
                "    ",
                return_type.return_reg(),
                return_reg.name().as_str(),
            );
            self.emit(text.as_str());
            Ok(return_reg)
        } else {
            Ok(Register::Void)
        }
    }

    /// Moves the arguments into their registers.
    fn cg_args(&mut self, args: &Vec<Expr>) -> (result: Result<(), Error>)
        requires
            !(model::arguments(old(self)@, args@, 0) is Stuck),
        ensures
            completes(result, final(self)@, model::arguments(old(self)@, args@, 0)),
        decreases exprs_size(args@) + 1,
    {
        let mut i: usize = 0;
        assert(args@.skip(0) =~= args@);
        while i < args.len()
            invariant
                i <= args.len(),
                model::arguments(self@, args@.skip(i as int), i as int) == model::arguments(
                    old(self)@,
                    args@,
                    0,
                ),
                !(model::arguments(old(self)@, args@, 0) is Stuck),
                exprs_size(args@.skip(i as int)) <= exprs_size(args@),
            decreases args.len() - i,
        {
            let expr = &args[i];
            assert(args@.skip(i as int)[0] == args@[i as int]);
            assert(args@.skip(i as int).drop_first() =~= args@.skip(i + 1));
            let reg = self.execute(expr)?;
            let type_decl = expr.type_decl.as_ref().unwrap();
            let text = instruction(
                "\tmov",
                type_decl,
                "    ",
                reg.name().as_str(),
                Register::Arg(i, type_decl.clone()).name().as_str(),
            );
            self.emit(text.as_str());
            self.free(&reg);
            i = i + 1;
        }
        Ok(())
    }

    fn cg_call(&mut self, callee: &Expr, args: &Vec<Expr>, return_type: NEWTypes) -> (result:
        Result<Register, Error>)
        requires
            !(model::call_expr(old(self)@, *callee, args@, return_type) is Stuck),
        ensures
            yields(
                result,
                final(self)@,
                model::call_expr(old(self)@, *callee, args@, return_type),
            ),
        decreases exprs_size(args@) + 2,
    {
        match &callee.kind {
            ExprKind::Ident(func_name) => {
                let func_name = func_name.unwrap_string();
                self.cg_args(args)?;
                self.cg_call_function(&func_name, return_type)
            },
            _ => unreached(),
        }
    }

    /// Generates the code of an expression, and says where its value lives.
    pub fn execute(&mut self, ast: &Expr) -> (result: Result<Register, Error>)
        requires
            !(model::execute(old(self)@, *ast) is Stuck),
        ensures
            yields(result, final(self)@, model::execute(old(self)@, *ast)),
        decreases expr_size(*ast),
    {
        match &ast.kind {
            ExprKind::Binary { left, token, right } => self.cg_binary(left, token, right),
            ExprKind::Number(v) => self.cg_literal_num(*v),
            ExprKind::CharLit(c) => self.cg_literal_char(*c),
            ExprKind::Grouping { expr } => self.execute(expr),
            ExprKind::Unary { token, right } => self.cg_unary(token, right),
            ExprKind::Logical { left, token, right } => self.cg_logical(left, token, right),
            ExprKind::Assign { l_expr, r_expr, .. } => self.cg_assign(l_expr, r_expr),
            ExprKind::Ident(name) => Ok(self.get_var(name)),
            ExprKind::Call { left_paren: _, callee, args } => {
                self.cg_call(callee, args, ast.type_decl.as_ref().unwrap().clone())
            },
            ExprKind::CastUp { expr } => {
                self.cg_cast_up(expr, ast.type_decl.as_ref().unwrap().clone())
            },
            ExprKind::CastDown { expr } => {
                self.cg_cast_down(expr, ast.type_decl.as_ref().unwrap().clone())
            },
            ExprKind::ScaleUp { expr, shift_amount } => self.cg_scale_up(expr, shift_amount),
            ExprKind::ScaleDown { expr, shift_amount } => self.cg_scale_down(expr, shift_amount),
        }
    }

    fn cg_scale_down(&mut self, expr: &Expr, by_amount: &usize) -> (result: Result<Register, Error>)
        requires
            !(model::shift_expr(old(self)@, "sar"@, *expr, *by_amount) is Stuck),
        ensures
            yields(result, final(self)@, model::shift_expr(old(self)@, "sar"@, *expr, *by_amount)),
        decreases expr_size(*expr) + 1,
    {
        let value_reg = self.execute(expr)?;

        let value_reg = self.maybe_convert_stack_reg(value_reg)?;

        // right shift, equivalent to division since sizes are powers of two
        let amount = "$".to_owned().concat(unsigned_string(*by_amount as u64).as_str());
        let text = instruction(
            "sar",
            &value_reg.get_type(),
            "   ",
            amount.as_str(),
            value_reg.name().as_str(),
        );
        self.emit(text.as_str());
        Ok(value_reg)
    }

    fn cg_scale_up(&mut self, expr: &Expr, by_amount: &usize) -> (result: Result<Register, Error>)
        requires
            !(model::shift_expr(old(self)@, "sal"@, *expr, *by_amount) is Stuck),
        ensures
            yields(result, final(self)@, model::shift_expr(old(self)@, "sal"@, *expr, *by_amount)),
        decreases expr_size(*expr) + 1,
    {
        let value_reg = self.execute(expr)?;

        let value_reg = self.maybe_convert_stack_reg(value_reg)?;

        // left shift, equivalent to multiplication
        let amount = "$".to_owned().concat(unsigned_string(*by_amount as u64).as_str());
        let text = instruction(
            "sal",
            &value_reg.get_type(),
            "   ",
            amount.as_str(),
            value_reg.name().as_str(),
        );
        self.emit(text.as_str());
        Ok(value_reg)
    }

    fn cg_cast_down(&mut self, expr: &Expr, new_type: NEWTypes) -> (result: Result<Register, Error>)
        requires
            !(model::cast_down_expr(old(self)@, *expr, new_type) is Stuck),
        ensures
            yields(result, final(self)@, model::cast_down_expr(old(self)@, *expr, new_type)),
        decreases expr_size(*expr) + 1,
    {
        let mut value_reg = self.execute(expr)?;
        value_reg.set_type(new_type);
        Ok(value_reg)
    }

    fn cg_cast_up(&mut self, expr: &Expr, new_type: NEWTypes) -> (result: Result<Register, Error>)
        requires
            !(model::cast_up_expr(old(self)@, *expr, new_type) is Stuck),
        ensures
            yields(result, final(self)@, model::cast_up_expr(old(self)@, *expr, new_type)),
        decreases expr_size(*expr) + 1,
    {
        let value_reg = self.execute(expr)?;
        let dest_reg = self.allocate(new_type.clone());
        // sign extends the smaller type
        let text = instruction(
            "movs".to_owned().concat(expr.type_decl.as_ref().unwrap().suffix()).as_str(),
            &new_type,
            "   ",
            value_reg.name().as_str(),
            dest_reg.name().as_str(),
        );
        self.emit(text.as_str());
        self.free(&value_reg);
        Ok(dest_reg)
    }

    fn cg_assign(&mut self, l_expr: &Expr, r_expr: &Expr) -> (result: Result<Register, Error>)
        requires
            !(model::assign_expr(old(self)@, *l_expr, *r_expr) is Stuck),
        ensures
            yields(result, final(self)@, model::assign_expr(old(self)@, *l_expr, *r_expr)),
        decreases expr_size(*l_expr) + expr_size(*r_expr) + 1,
    {
        let l_value = self.execute_l(l_expr)?;
        let r_value = self.execute(r_expr)?;

        // an instruction can't move from memory to memory
        let r_value = self.maybe_convert_stack_reg(r_value)?;

        let text = instruction(
            "\tmov",
            &r_value.get_type(),
            "    ",
            r_value.name().as_str(),
            l_value.name().as_str(),
        );
        self.emit(text.as_str());
        self.free(&r_value);
        Ok(l_value)
    }

    fn execute_l(&mut self, expr: &Expr) -> (result: Result<Register, Error>)
        requires
            !(model::execute_l(old(self)@, *expr) is Stuck),
        ensures
            yields(result, final(self)@, model::execute_l(old(self)@, *expr)),
        decreases expr_size(*expr),
    {
        match &expr.kind {
            ExprKind::Unary { token, right } => {
                let reg = self.execute(right)?;
                match token.token {
                    TokenType::Star => self.cg_deref_at_l(reg),
                    _ => unreached(),
                }
            },
            ExprKind::Ident(name) => Ok(self.get_var(name)),
            ExprKind::Grouping { expr } => self.execute_l(expr),
            _ => unreached(),
        }
    }

    fn cg_logical(
        &mut self,
        left: &Expr,
        token: &Token,
        right: &Expr,
    ) -> (result: Result<Register, Error>)
        requires
            !(model::logical_expr(old(self)@, *left, *token, *right) is Stuck),
        ensures
            yields(result, final(self)@, model::logical_expr(old(self)@, *left, *token, *right)),
        decreases expr_size(*left) + expr_size(*right) + 2,
    {
        match token.token {
            TokenType::AmpAmp => self.cg_and(left, right),
            TokenType::PipePipe => self.cg_or(left, right),
            _ => unreached(),
        }
    }

    fn cg_or(&mut self, left: &Expr, right: &Expr) -> (result: Result<Register, Error>)
        requires
            !(model::or_expr(old(self)@, *left, *right) is Stuck),
        ensures
            yields(result, final(self)@, model::or_expr(old(self)@, *left, *right)),
        decreases expr_size(*left) + expr_size(*right) + 1,
    {
        let left = self.execute(left)?;
        let true_label = self.create_label();

        // where left is true, right is not evaluated
        self.cg_test(&left, "\tjne    L", true_label);

        let right = self.execute(right)?;
        self.cg_or_right(true_label, right)
    }

    fn cg_and(&mut self, left: &Expr, right: &Expr) -> (result: Result<Register, Error>)
        requires
            !(model::and_expr(old(self)@, *left, *right) is Stuck),
        ensures
            yields(result, final(self)@, model::and_expr(old(self)@, *left, *right)),
        decreases expr_size(*left) + expr_size(*right) + 1,
    {
        let left = self.execute(left)?;
        let false_label = self.create_label();

        // where left is false, right is not evaluated
        self.cg_test(&left, "\tje    L", false_label);

        let right = self.execute(right)?;
        self.cg_and_right(false_label, right)
    }

    fn cg_unary(&mut self, token: &Token, right: &Expr) -> (result: Result<Register, Error>)
        requires
            !(model::unary_expr(old(self)@, *token, *right) is Stuck),
        ensures
            yields(result, final(self)@, model::unary_expr(old(self)@, *token, *right)),
        decreases expr_size(*right) + 1,
    {
        let reg = self.execute(right)?;
        match token.token {
            TokenType::Bang => self.cg_bang(reg),
            TokenType::Minus => self.cg_negate(reg),
            TokenType::Amp => self.cg_address_at(reg),
            TokenType::Star => self.cg_deref_at(reg),
            _ => Err(Error::new(token, ErrorKind::Regular("invalid unary operator"))),
        }
    }

    fn cg_binary(
        &mut self,
        left: &Expr,
        token: &Token,
        right: &Expr,
    ) -> (result: Result<Register, Error>)
        requires
            !(model::binary_expr(old(self)@, *left, *token, *right) is Stuck),
        ensures
            yields(result, final(self)@, model::binary_expr(old(self)@, *left, *token, *right)),
        decreases expr_size(*left) + expr_size(*right) + 1,
    {
        let left_reg = self.execute(left)?;
        let right_reg = self.execute(right)?;

        let left_reg = self.maybe_convert_stack_reg(left_reg)?;
        let right_reg = self.maybe_convert_stack_reg(right_reg)?;

        self.cg_operator(token, left_reg, right_reg)
    }

    fn declare_var(&mut self, type_decl: &NEWTypes, name: &Token) -> (result: Result<(), Error>)
        requires
            !(model::declare_variable(old(self)@, *type_decl, *name) is Stuck),
        ensures
            completes(result, final(self)@, model::declare_variable(old(self)@, *type_decl, *name)),
    {
        self.current_bp_offset = self.current_bp_offset + type_decl.size();
        self.current_bp_offset = align_by(self.current_bp_offset, type_decl.size());

        self.env.declare_var(
            name.unwrap_string(),
            Register::Stack(StackRegister::new(self.current_bp_offset), type_decl.clone()),
        );
        Ok(())
    }

    fn init_var(
        &mut self,
        type_decl: &NEWTypes,
        name: &Token,
        value_reg: Register,
    ) -> (result: Result<(), Error>)
        requires
            !(model::initialize(old(self)@, *type_decl, *name, value_reg) is Stuck),
        ensures
            completes(
                result,
                final(self)@,
                model::initialize(old(self)@, *type_decl, *name, value_reg),
            ),
    {
        self.declare_var(type_decl, name)?;
        let value_reg = self.maybe_convert_stack_reg(value_reg)?;

        // the declaration has given the variable its place
        let place = self.get_var(name);
        let text = instruction(
            "\tmov",
            type_decl,
            "    ",
            value_reg.name().as_str(),
            place.name().as_str(),
        );
        self.emit(text.as_str());
        self.free(&value_reg);
        Ok(())
    }

    fn init_params(&mut self, params: &Vec<(NEWTypes, Token)>) -> (result: Result<(), Error>)
        requires
            !(model::parameters(old(self)@, params@, 0) is Stuck),
        ensures
            completes(result, final(self)@, model::parameters(old(self)@, params@, 0)),
    {
        let mut i: usize = 0;
        while i < params.len()
            invariant
                i <= params.len(),
                model::parameters(self@, params@, i as int) == model::parameters(
                    old(self)@,
                    params@,
                    0,
                ),
                !(model::parameters(old(self)@, params@, 0) is Stuck),
            decreases params.len() - i,
        {
            let (type_decl, name) = &params[i];
            self.init_var(type_decl, name, Register::Arg(i, type_decl.clone()))?;
            i = i + 1;
        }
        Ok(())
    }

    /// Makes room for the variables of a function.
    pub fn allocate_stack(&mut self, name: &str) -> (result: Result<(), Error>)
        requires
            !(model::allocate_stack(old(self)@, name@) is Stuck),
        ensures
            completes(result, final(self)@, model::allocate_stack(old(self)@, name@)),
    {
        // the stack has to be aligned to 16 bytes
        let size = align_by(*self.func_stack_size.get(name).unwrap(), 16);
        self.func_stack_size.insert(name.to_owned(), size);
        self.emit(room(size).as_str());
        Ok(())
    }

    /// Gives back the room for the variables of a function.
    pub fn dealloc_stack(&mut self, name: &str) -> (result: Result<(), Error>)
        requires
            !(model::release_stack(old(self)@, name@) is Stuck),
        ensures
            completes(result, final(self)@, model::release_stack(old(self)@, name@)),
    {
        let size = *self.func_stack_size.get(name).unwrap();
        self.emit(room_back(size).as_str());
        Ok(())
    }

    fn cg_func_preamble(
        &mut self,
        name: &str,
        params: &Vec<(NEWTypes, Token)>,
    ) -> (result: Result<(), Error>)
        requires
            !(model::function_start(old(self)@, name@, params@) is Stuck),
        ensures
            completes(result, final(self)@, model::function_start(old(self)@, name@, params@)),
    {
        // the label of the function, then base pointer and stack pointer
        let text = "\n\t.text\n\t.globl _".to_owned().concat(name).concat("\n_").concat(
            name,
        ).concat(":\n\tpushq   %rbp\n\tmovq    %rsp, %rbp\n");
        self.emit(text.as_str());

        self.allocate_stack(name)?;
        self.init_params(params)
    }

    fn cg_func_postamble(&mut self, name: &str) -> (result: Result<(), Error>)
        requires
            !(model::function_end(old(self)@, name@) is Stuck),
        ensures
            completes(result, final(self)@, model::function_end(old(self)@, name@)),
    {
        self.emit(name.to_owned().concat("_epilogue:\n").as_str());
        self.dealloc_stack(name)?;
        self.emit("\tpopq    %rbp\n\tret\n");
        Ok(())
    }

    fn return_statement(&mut self, value: &Option<Expr>) -> (result: Result<(), Error>)
        requires
            !(model::return_statement(old(self)@, *value) is Stuck),
        ensures
            completes(result, final(self)@, model::return_statement(old(self)@, *value)),
    {
        let function_epilogue = "\tjmp    ".to_owned().concat(
            self.function_name.as_ref().unwrap().as_str(),
        ).concat("_epilogue\n");
        match value {
            Some(expr) => {
                let return_value = self.execute(expr)?;
                let text = instruction(
                    "\tmov",
                    &return_value.get_type(),
                    "    ",
                    return_value.name().as_str(),
                    return_value.get_type().return_reg(),
                ).concat(function_epilogue.as_str());
                self.emit(text.as_str());
                self.free(&return_value);
            },
            None => self.emit(function_epilogue.as_str()),
        }
        Ok(())
    }

    fn cg_stmts(&mut self, statements: &Vec<Stmt>) -> (result: Result<(), Error>)
        requires
            !(model::statements(old(self)@, statements@) is Stuck),
        ensures
            completes(result, final(self)@, model::statements(old(self)@, statements@)),
        decreases stmts_size(statements@) + 1,
    {
        let mut i: usize = 0;
        assert(statements@.skip(0) =~= statements@);
        while i < statements.len()
            invariant
                i <= statements.len(),
                model::statements(self@, statements@.skip(i as int)) == model::statements(
                    old(self)@,
                    statements@,
                ),
                !(model::statements(old(self)@, statements@) is Stuck),
                stmts_size(statements@.skip(i as int)) <= stmts_size(statements@),
            decreases statements.len() - i,
        {
            assert(statements@.skip(i as int)[0] == statements@[i as int]);
            assert(statements@.skip(i as int).drop_first() =~= statements@.skip(i + 1));
            self.visit(&statements[i])?;
            i = i + 1;
        }
        Ok(())
    }

    /// Generates the code of statements in the scope `env`, and goes on in the
    /// one that encloses it.
    pub fn block(&mut self, statements: &Vec<Stmt>, env: Environment<Register>) -> (result: Result<
        (),
        Error,
    >)
        requires
            !(model::block(old(self)@, statements@, env.scopes()) is Stuck),
        ensures
            completes(
                result,
                final(self)@,
                model::block(old(self)@, statements@, env.scopes()),
            ),
        decreases stmts_size(statements@) + 2,
    {
        self.env = env;
        let result = self.cg_stmts(statements);

        let mut inner = Environment::new(None);
        core::mem::swap(&mut inner, &mut self.env);
        assert(inner.enclosing matches Some(outer) ==> inner.scopes().drop_first()
            =~= outer.scopes());
        self.env = *inner.enclosing.unwrap();
        result
    }

    fn function_definition(
        &mut self,
        name: String,
        params: &Vec<(NEWTypes, Token)>,
        body: &Vec<Stmt>,
    ) -> (result: Result<(), Error>)
        requires
            !(model::function_definition(old(self)@, name@, params@, body@) is Stuck),
        ensures
            completes(
                result,
                final(self)@,
                model::function_definition(old(self)@, name@, params@, body@),
            ),
        decreases stmts_size(body@) + 2,
    {
        // returning jumps to a label made from the name
        self.function_name = Some(name.clone());

        self.cg_func_preamble(name.as_str(), params)?;
        self.cg_stmts(body)?;
        self.cg_func_postamble(name.as_str())?;

        self.current_bp_offset = 0;
        self.function_name = None;

        Ok(())
    }

    /// Compares a condition with 0 and gives it up.
    fn cg_condition(&mut self, cond_reg: &Register)
        requires
            !(model::test_condition(old(self)@, *cond_reg) is Stuck),
        ensures
            model::test_condition(old(self)@, *cond_reg) == Step::Done(
                final(self)@,
                Register::Void,
            ),
    {
        let text = "\tcmpl    $0, ".to_owned().concat(cond_reg.name().as_str()).concat("\n");
        self.emit(text.as_str());
        self.free(cond_reg);
    }

    fn if_statement(
        &mut self,
        cond: &Expr,
        then_branch: &Stmt,
        else_branch: &Option<Stmt>,
    ) -> (result: Result<(), Error>)
        requires
            !(model::if_statement(old(self)@, *cond, *then_branch, *else_branch) is Stuck),
        ensures
            completes(
                result,
                final(self)@,
                model::if_statement(old(self)@, *cond, *then_branch, *else_branch),
            ),
        decreases stmt_size(*then_branch) + (match *else_branch {
                Some(branch) => stmt_size(branch),
                None => 0,
            }) + 3,
    {
        let cond_reg = self.execute(cond)?;
        let done_label = self.create_label();
        self.cg_condition(&cond_reg);

        match else_branch {
            Some(else_branch) => {
                let else_label = self.create_label();
                self.emit(jump_line("\tje    L", else_label).as_str());
                self.visit(then_branch)?;
                let text = jump_line("\tjmp    L", done_label).concat(
                    label_line(else_label).as_str(),
                );
                self.emit(text.as_str());
                self.visit(else_branch)?;
            },
            None => {
                self.emit(jump_line("\tje    L", done_label).as_str());
                self.visit(then_branch)?;
            },
        }
        self.emit(label_line(done_label).as_str());
        Ok(())
    }

    fn while_statement(&mut self, cond: &Expr, body: &Stmt) -> (result: Result<(), Error>)
        requires
            !(model::while_statement(old(self)@, *cond, *body) is Stuck),
        ensures
            completes(result, final(self)@, model::while_statement(old(self)@, *cond, *body)),
        decreases stmt_size(*body) + 1,
    {
        let start_label = self.create_label();
        let end_label = self.create_label();

        let text = jump_line("\tjmp    L", end_label).concat(label_line(start_label).as_str());
        self.emit(text.as_str());
        self.visit(body)?;

        self.emit(label_line(end_label).as_str());
        let cond_reg = self.execute(cond)?;
        let text = "\tcmpl    $0, ".to_owned().concat(cond_reg.name().as_str()).concat("\n").concat(
            jump_line("\tjne      L", start_label).as_str(),
        );
        self.emit(text.as_str());
        self.free(&cond_reg);
        Ok(())
    }

    fn visit(&mut self, statement: &Stmt) -> (result: Result<(), Error>)
        requires
            !(model::visit(old(self)@, *statement) is Stuck),
        ensures
            completes(result, final(self)@, model::visit(old(self)@, *statement)),
        decreases stmt_size(*statement),
    {
        match statement {
            Stmt::Expr(expr) => {
                // the value is not used
                let value_reg = self.execute(expr)?;
                self.free(&value_reg);
                Ok(())
            },
            Stmt::DeclareVar(type_decl, name) => self.declare_var(type_decl, name),
            Stmt::InitVar(type_decl, name, expr) => {
                let value_reg = self.execute(expr)?;
                self.init_var(type_decl, name, value_reg)
            },
            Stmt::Block(_, statements) => {
                let mut outer = Environment::new(None);
                core::mem::swap(&mut outer, &mut self.env);
                let env = Environment::new(Some(Box::new(outer)));
                assert(env.scopes() =~= seq![Map::empty()] + outer.scopes());
                self.block(statements, env)
            },
            Stmt::Function(_, name, params, body) => {
                self.function_definition(name.unwrap_string(), params, body)
            },
            Stmt::Return(_, expr) => self.return_statement(expr),
            Stmt::If(_, cond, then_branch, else_branch) => {
                self.if_statement(cond, then_branch, else_branch)
            },
            Stmt::While(_, cond, body) => self.while_statement(cond, body),
            Stmt::FunctionDeclaration(_, _, _) => Ok(()),
        }
    }

    fn preamble() -> (text: &'static str)
        ensures
            text@ == model::preamble(),
    {
        "\t.text\n\t.cstring\nlC0:\n\t.string \"%d\\n\"\n\t.text\n\n_printint:\n\
         \tpushq   %rbp\n\tmovq    %rsp, %rbp\n\n\tsubq    $16, %rsp\n\
         \tmovl    %edi, -4(%rbp)\n\tmovl    -4(%rbp), %eax\n\tmovl    %eax, %esi\n\
         \tleaq\tlC0(%rip), %rax\n\tmovq\t%rax, %rdi\n\taddq    $16, %rsp\n\n\
         \tmovl    $0, %eax\n\tcall    _printf\n\tnop\n\tleave\n\tret\n"
    }

    /// Generates a program.
    pub fn compile(&mut self, statements: &Vec<Stmt>) -> (result: Result<(), Error>)
        requires
            !(model::program(old(self)@, statements@) is Stuck),
        ensures
            completes(result, final(self)@, model::program(old(self)@, statements@)),
    {
        self.cg_stmts(statements)?;
        self.output = Compiler::preamble().to_owned().concat(self.output.as_str());
        Ok(())
    }
}

} // verus!
