//! The virtual machine: a stack interpreter that executes one opcode per
//! iteration.
//!
//! `spec_run` is the reference semantics of the bytecode. `run` is proved to
//! return exactly what `spec_run` denotes, and — thanks to the compiler's
//! guarantees — to never underflow the stack, read out of bounds, or meet an
//! unknown opcode.

use crate::chunk::chunk_ready;
use crate::chunk::lemma_seg_wf_concat;
use crate::chunk::seg_wf;
use crate::chunk::spec_op_from_byte;
use crate::chunk::Chunk;
use crate::chunk::OpCode;
use crate::compiler::spec_prefix_of;
use crate::compiler::Compiler;
use crate::compiler::Diagnostic;
use crate::scanner::spec_token_kind;
use crate::value::add_bits;
use crate::value::div_bits;
use crate::value::mul_bits;
use crate::value::num_add;
use crate::value::num_div;
use crate::value::num_lt;
use crate::value::num_mul;
use crate::value::num_negate;
use crate::value::num_sub;
use crate::value::spec_is_falsey;
use crate::value::spec_num_lt;
use crate::value::spec_num_negate;
use crate::value::spec_values_equal;
use crate::value::sub_bits;
use crate::value::values_equal;
use crate::value::Value;
use vstd::prelude::*;

verus! {

/// How an interpretation can fail.
#[derive(Clone, Copy, PartialEq, Eq, Structural, Debug)]
pub enum InterpretError {
    CompilerError,
    RuntimeError,
}

pub type InterpretResult<T> = Result<T, InterpretError>;

/// One runtime diagnostic: the message and the source line of the failing
/// instruction.
pub struct RuntimeDiagnostic {
    pub line: usize,
    pub message: String,
}

/// The denotation of running bytecode from `ip` with the given stack:
/// the value the final `Return` pops, a type error at some instruction, or
/// `Stuck` for ill-formed code that a ready chunk never contains.
pub enum RunOutcome {
    Done { value: Value },
    TypeError { unary: bool, at: int },
    Stuck,
}

/// The reference semantics of the instruction set, one instruction per
/// unfolding. Unknown bytes are no-ops.
pub open spec fn spec_run(code: Seq<u8>, consts: Seq<Value>, ip: int, stack: Seq<Value>) -> RunOutcome
    decreases code.len() - ip,
{
    if ip < 0 || ip >= code.len() {
        RunOutcome::Stuck
    } else {
        match spec_op_from_byte(code[ip]) {
            OpCode::Return => {
                if stack.len() >= 1 {
                    RunOutcome::Done { value: stack.last() }
                } else {
                    RunOutcome::Stuck
                }
            },
            OpCode::Constant => {
                if ip + 2 <= code.len() && (code[ip + 1] as int) < consts.len() {
                    spec_run(code, consts, ip + 2, stack.push(consts[code[ip + 1] as int]))
                } else {
                    RunOutcome::Stuck
                }
            },
            OpCode::Nil => spec_run(code, consts, ip + 1, stack.push(Value::Nil)),
            OpCode::True => spec_run(code, consts, ip + 1, stack.push(Value::Bool(true))),
            OpCode::False => spec_run(code, consts, ip + 1, stack.push(Value::Bool(false))),
            OpCode::Equal => {
                if stack.len() >= 2 {
                    let b = stack.last();
                    let a = stack[stack.len() - 2];
                    spec_run(
                        code,
                        consts,
                        ip + 1,
                        stack.drop_last().drop_last().push(
                            Value::Bool(spec_values_equal(a, b)),
                        ),
                    )
                } else {
                    RunOutcome::Stuck
                }
            },
            OpCode::Greater | OpCode::Less => {
                if stack.len() >= 2 {
                    let b = stack.last();
                    let a = stack[stack.len() - 2];
                    if a is Number && b is Number {
                        let x = a->Number_0;
                        let y = b->Number_0;
                        let cmp = if spec_op_from_byte(code[ip]) == OpCode::Greater {
                            spec_num_lt(y, x)
                        } else {
                            spec_num_lt(x, y)
                        };
                        spec_run(
                            code,
                            consts,
                            ip + 1,
                            stack.drop_last().drop_last().push(Value::Bool(cmp)),
                        )
                    } else {
                        RunOutcome::TypeError { unary: false, at: ip }
                    }
                } else {
                    RunOutcome::Stuck
                }
            },
            OpCode::Add | OpCode::Subtract | OpCode::Multiply | OpCode::Divide => {
                if stack.len() >= 2 {
                    let b = stack.last();
                    let a = stack[stack.len() - 2];
                    if a is Number && b is Number {
                        let x = a->Number_0;
                        let y = b->Number_0;
                        let bits = match spec_op_from_byte(code[ip]) {
                            OpCode::Add => add_bits(x, y),
                            OpCode::Subtract => sub_bits(x, y),
                            OpCode::Multiply => mul_bits(x, y),
                            _ => div_bits(x, y),
                        };
                        spec_run(
                            code,
                            consts,
                            ip + 1,
                            stack.drop_last().drop_last().push(Value::Number(bits)),
                        )
                    } else {
                        RunOutcome::TypeError { unary: false, at: ip }
                    }
                } else {
                    RunOutcome::Stuck
                }
            },
            OpCode::Not => {
                if stack.len() >= 1 {
                    spec_run(
                        code,
                        consts,
                        ip + 1,
                        stack.drop_last().push(Value::Bool(spec_is_falsey(stack.last()))),
                    )
                } else {
                    RunOutcome::Stuck
                }
            },
            OpCode::Negate => {
                if stack.len() >= 1 {
                    if stack.last() is Number {
                        spec_run(
                            code,
                            consts,
                            ip + 1,
                            stack.drop_last().push(
                                Value::Number(spec_num_negate(stack.last()->Number_0)),
                            ),
                        )
                    } else {
                        RunOutcome::TypeError { unary: true, at: ip }
                    }
                } else {
                    RunOutcome::Stuck
                }
            },
            OpCode::Unknown => spec_run(code, consts, ip + 1, stack),
        }
    }
}

/// The stack machine. Between calls the stack is empty; during `run` the
/// chunk being executed is owned by the machine's caller and stored in the
/// machine when execution ends.
pub struct VM {
    ip: usize,
    stack: Vec<Value>,
    chunk: Option<Chunk>,
    compile_diag: Option<Diagnostic>,
    runtime_diag: Option<RuntimeDiagnostic>,
}

impl VM {
    /// The operand stack.
    pub closed spec fn stack_view(&self) -> Seq<Value> {
        self.stack@
    }

    /// The chunk most recently executed.
    pub closed spec fn chunk_spec(&self) -> Option<Chunk> {
        self.chunk
    }

    /// The diagnostic of the most recent compile error.
    pub closed spec fn compile_diag_spec(&self) -> Option<Diagnostic> {
        self.compile_diag
    }

    /// The diagnostic of the most recent runtime error.
    pub closed spec fn runtime_diag_spec(&self) -> Option<RuntimeDiagnostic> {
        self.runtime_diag
    }

    pub fn new() -> (r: Self)
        ensures
            r.stack_view() == Seq::<Value>::empty(),
            r.compile_diag_spec() is None,
            r.runtime_diag_spec() is None,
    {
        VM {
            ip: 0,
            stack: Vec::new(),
            chunk: None,
            compile_diag: None,
            runtime_diag: None,
        }
    }

    /// The diagnostic of the most recent compile error, if any.
    pub fn compile_diagnostic(&self) -> (r: &Option<Diagnostic>)
        ensures
            *r == self.compile_diag_spec(),
    {
        &self.compile_diag
    }

    /// The diagnostic of the most recent runtime error, if any.
    pub fn runtime_diagnostic(&self) -> (r: &Option<RuntimeDiagnostic>)
        ensures
            *r == self.runtime_diag_spec(),
    {
        &self.runtime_diag
    }

    /// Clears the operand stack.
    fn reset_stack(&mut self)
        ensures
            final(self).stack_view() == Seq::<Value>::empty(),
            final(self).ip_spec() == old(self).ip_spec(),
            final(self).chunk_spec() == old(self).chunk_spec(),
            final(self).compile_diag_spec() == old(self).compile_diag_spec(),
            final(self).runtime_diag_spec() == old(self).runtime_diag_spec(),
    {
        self.stack.clear();
    }

    /// The instruction pointer.
    pub closed spec fn ip_spec(&self) -> int {
        self.ip as int
    }

    /// Reads the byte at the instruction pointer and moves past it.
    fn read_byte(&mut self, chunk: &Chunk) -> (r: u8)
        requires
            old(self).ip_spec() < chunk.code().len(),
        ensures
            r == chunk.code()[old(self).ip_spec()],
            final(self).ip_spec() == old(self).ip_spec() + 1,
            final(self).stack_view() == old(self).stack_view(),
            final(self).chunk_spec() == old(self).chunk_spec(),
            final(self).compile_diag_spec() == old(self).compile_diag_spec(),
            final(self).runtime_diag_spec() == old(self).runtime_diag_spec(),
    {
        let n = chunk.count();
        let val = chunk.get(self.ip);
        proof {
            assert(self.ip < n);
        }
        self.ip += 1;
        val
    }

    /// Reads the operand byte and loads the constant it indexes.
    fn read_constant(&mut self, chunk: &Chunk) -> (r: Value)
        requires
            old(self).ip_spec() < chunk.code().len(),
            (chunk.code()[old(self).ip_spec()] as int) < chunk.constants().len(),
        ensures
            r == chunk.constants()[chunk.code()[old(self).ip_spec()] as int],
            final(self).ip_spec() == old(self).ip_spec() + 1,
            final(self).stack_view() == old(self).stack_view(),
            final(self).chunk_spec() == old(self).chunk_spec(),
            final(self).compile_diag_spec() == old(self).compile_diag_spec(),
            final(self).runtime_diag_spec() == old(self).runtime_diag_spec(),
    {
        let seq = self.read_byte(chunk);
        chunk.get_constant(seq as usize)
    }

    /// The stack value `distance` slots below the top.
    fn peek(&self, distance: usize) -> (r: Value)
        requires
            distance < self.stack_view().len(),
        ensures
            r == self.stack_view()[self.stack_view().len() - 1 - distance],
    {
        self.stack[self.stack.len() - 1 - distance]
    }

    /// Records a runtime diagnostic and clears the stack.
    fn runtime_error(&mut self, message: &str, line: usize)
        ensures
            final(self).stack_view() == Seq::<Value>::empty(),
            final(self).runtime_diag_spec() matches Some(d) && d.line == line && d.message@
                == message@,
            final(self).chunk_spec() == old(self).chunk_spec(),
            final(self).compile_diag_spec() == old(self).compile_diag_spec(),
    {
        self.runtime_diag = Some(
            RuntimeDiagnostic { line, message: String::from_str(message) },
        );
        self.stack.clear();
    }

    /// Compiles and runs one source string. On a compile error the first
    /// diagnostic is stored and `CompilerError` returned; otherwise the
    /// stored chunk is ready and the result is exactly what `spec_run`
    /// denotes for it: the value the final `Return` pops, or a runtime
    /// error with its diagnostic stored. A source that is a single number
    /// literal is proved end to end: the result is exactly the
    /// correctly-rounded double its digits spell.
    pub fn interpret(&mut self, source: &str) -> (r: InterpretResult<Value>)
        requires
            source@.len() < usize::MAX,
        ensures
            spec_prefix_of(spec_token_kind(source@, 0)) is None ==> r == Err::<
                Value,
                InterpretError,
            >(InterpretError::CompilerError),
            final(self).stack_view().len() == 0,
            (r == Err::<Value, InterpretError>(InterpretError::CompilerError)) ==> ((final(self)).compile_diag_spec() is Some),
            ({
                let s = source@;
                let k0 = spec_token_kind(s, 0);
                let p1 = crate::scanner::spec_token_end(s, 0);
                (spec_prefix_of(k0) is None && k0 != crate::scanner::TokenType::Error
                    && spec_token_kind(s, p1) != crate::scanner::TokenType::Error) ==> ({
                    final(self).compile_diag_spec() matches Some(d) && d.message@
                        == "Expect expression."@ && d.at_end == (k0
                        == crate::scanner::TokenType::Eof) && (d.lexeme matches Some(l) && l@
                        == crate::scanner::spec_token_lexeme(s, 0)) && d.line as int == 1
                        + crate::scanner::newlines_before(s, p1)
                })
            }),
            ({
                let s = source@;
                let k0 = spec_token_kind(s, 0);
                let p1 = crate::scanner::spec_token_end(s, 0);
                let t1 = spec_token_kind(s, p1);
                let e1 = crate::scanner::spec_token_end(s, p1);
                let t2 = spec_token_kind(s, e1);
                let e2 = crate::scanner::spec_token_end(s, e1);
                let t3 = spec_token_kind(s, e2);
                let e3 = crate::scanner::spec_token_end(s, e2);
                let t4 = spec_token_kind(s, e3);
                let hyp = {
                    &&& k0 == crate::scanner::TokenType::LeftParen
                    &&& crate::compiler::is_literal_kind(t1)
                    &&& crate::compiler::spec_infix_of(t2) is Some
                    &&& crate::compiler::is_literal_kind(t3)
                    &&& t4 != crate::scanner::TokenType::Error
                    &&& t4 != crate::scanner::TokenType::RightParen
                    &&& crate::compiler::spec_prec_rank(crate::compiler::spec_prec_of(t4)) == 0
                };
                hyp ==> ({
                    &&& r == Err::<Value, InterpretError>(InterpretError::CompilerError)
                    &&& final(self).compile_diag_spec() matches Some(d) && d.message@
                        == "Expect ')' after expression."@ && d.at_end == (t4
                        == crate::scanner::TokenType::Eof) && (d.lexeme matches Some(l) && l@
                        == crate::scanner::spec_token_lexeme(s, e3))
                })
            }),
            ({
                let s = source@;
                let k0 = spec_token_kind(s, 0);
                let p1 = crate::scanner::spec_token_end(s, 0);
                let k1 = spec_token_kind(s, p1);
                let p2 = crate::scanner::spec_token_end(s, p1);
                let k2 = spec_token_kind(s, p2);
                let p3 = crate::scanner::spec_token_end(s, p2);
                let k3 = spec_token_kind(s, p3);
                let hyp = {
                    &&& crate::compiler::is_literal_kind(k0)
                    &&& crate::compiler::spec_infix_of(k1) is Some
                    &&& crate::compiler::spec_prefix_of(k2) is None
                    &&& k2 != crate::scanner::TokenType::Error
                    &&& k3 != crate::scanner::TokenType::Error
                    &&& crate::compiler::spec_prec_rank(crate::compiler::spec_prec_of(k3)) == 0
                };
                hyp ==> ({
                    &&& r == Err::<Value, InterpretError>(InterpretError::CompilerError)
                    &&& final(self).compile_diag_spec() matches Some(d) && d.message@
                        == "Expect expression."@ && d.line as int == 1
                        + crate::scanner::newlines_before(s, p3) && d.at_end == (k2
                        == crate::scanner::TokenType::Eof) && (d.lexeme matches Some(l) && l@
                        == crate::scanner::spec_token_lexeme(s, p2))
                })
            }),
            ({
                let s = source@;
                let k0 = spec_token_kind(s, 0);
                let p1 = crate::scanner::spec_token_end(s, 0);
                (crate::compiler::is_literal_kind(k0) && spec_token_kind(s, p1)
                    == crate::scanner::TokenType::Eof) ==> r == Ok::<Value, InterpretError>(
                    crate::compiler::spec_literal_value(
                        k0,
                        crate::scanner::spec_token_lexeme(s, 0),
                    ),
                )
            }),
            ({
                let s = source@;
                let k0 = spec_token_kind(s, 0);
                let p1 = crate::scanner::spec_token_end(s, 0);
                let k1 = spec_token_kind(s, p1);
                let p2 = crate::scanner::spec_token_end(s, p1);
                let k2 = spec_token_kind(s, p2);
                let p3 = crate::scanner::spec_token_end(s, p2);
                let hyp = {
                    &&& k0 == crate::scanner::TokenType::Number
                    &&& crate::compiler::spec_infix_of(k1) is Some
                    &&& crate::compiler::is_literal_kind(k2)
                    &&& spec_token_kind(s, p3) == crate::scanner::TokenType::Eof
                };
                hyp ==> (if k2 == crate::scanner::TokenType::Number {
                    r == Ok::<Value, InterpretError>(
                        Value::Number(
                            crate::compiler::spec_arith_bits(
                                k1,
                                crate::value::number_value_bits(
                                    crate::scanner::spec_token_lexeme(s, 0),
                                ),
                                crate::value::number_value_bits(
                                    crate::scanner::spec_token_lexeme(s, p2),
                                ),
                            ),
                        ),
                    )
                } else {
                    r == Err::<Value, InterpretError>(InterpretError::RuntimeError) && ({
                        final(self).runtime_diag_spec() matches Some(d) && d.message@
                            == "Operands must be numbers."@
                    })
                })
            }),
            ({
                let s = source@;
                let k0 = spec_token_kind(s, 0);
                let p1 = crate::scanner::spec_token_end(s, 0);
                let k1 = spec_token_kind(s, p1);
                let p2 = crate::scanner::spec_token_end(s, p1);
                let hyp = {
                    &&& k0 == crate::scanner::TokenType::Minus
                    &&& crate::compiler::is_literal_kind(k1)
                    &&& spec_token_kind(s, p2) == crate::scanner::TokenType::Eof
                };
                hyp ==> (if k1 == crate::scanner::TokenType::Number {
                    r == Ok::<Value, InterpretError>(
                        Value::Number(
                            crate::value::spec_num_negate(
                                crate::value::number_value_bits(
                                    crate::scanner::spec_token_lexeme(s, p1),
                                ),
                            ),
                        ),
                    )
                } else {
                    r == Err::<Value, InterpretError>(InterpretError::RuntimeError) && ({
                        final(self).runtime_diag_spec() matches Some(d) && d.message@
                            == "Operand must be a number."@
                    })
                })
            }),
            r != Err::<Value, InterpretError>(InterpretError::CompilerError) ==> ({
                &&& final(self).chunk_spec() is Some
                &&& ({
                    let c = final(self).chunk_spec()->0;
                    &&& chunk_ready(&c)
                    &&& match spec_run(c.code(), c.constants(), 0, Seq::<Value>::empty()) {
                        RunOutcome::Done { value } => r == Ok::<Value, InterpretError>(value),
                        RunOutcome::TypeError { unary, at } => {
                            &&& r == Err::<Value, InterpretError>(InterpretError::RuntimeError)
                            &&& 0 <= at < c.line_table().len()
                            &&& final(self).runtime_diag_spec() matches Some(d) && d.line
                                == c.line_table()[at] && d.message@ == (if unary {
                                "Operand must be a number."@
                            } else {
                                "Operands must be numbers."@
                            })
                        },
                        RunOutcome::Stuck => false,
                    }
                })
            }),
    {
        self.compile_diag = None;
        self.runtime_diag = None;
        self.ip = 0;
        self.reset_stack();

        let mut compiler = Compiler::new(source);
        let result = compiler.compile();
        match result {
            Err(_) => {
                self.compile_diag = compiler.into_diagnostic();
                return Err(InterpretError::CompilerError);
            },
            Ok(_) => {},
        }
        let chunk = compiler.into_chunk();
        let r = self.run(chunk);
        proof {
            let s = source@;
            let k0 = spec_token_kind(s, 0);
            let p1 = crate::scanner::spec_token_end(s, 0);
            let k1 = spec_token_kind(s, p1);
            let p2 = crate::scanner::spec_token_end(s, p1);
            let k2 = spec_token_kind(s, p2);
            let p3 = crate::scanner::spec_token_end(s, p2);
            let code = chunk.code();
            let consts = chunk.constants();
            let e0 = Seq::<Value>::empty();
            if crate::compiler::is_literal_kind(k0) && k1 == crate::scanner::TokenType::Eof {
                let v = crate::compiler::spec_literal_value(
                    k0,
                    crate::scanner::spec_token_lexeme(s, 0),
                );
                if k0 == crate::scanner::TokenType::Number {
                    assert(code =~= seq![0u8, 0u8, 13u8]);
                    assert(consts =~= seq![v]);
                    assert(spec_run(code, consts, 2, e0.push(v)) == (RunOutcome::Done {
                        value: v,
                    }));
                    assert(spec_run(code, consts, 0, e0) == (RunOutcome::Done { value: v }));
                } else {
                    let b = crate::chunk::spec_op_byte(crate::compiler::spec_literal_op(k0));
                    assert(code =~= seq![b, 13u8]);
                    crate::chunk::lemma_op_byte_round_trip(crate::compiler::spec_literal_op(k0));
                    assert(spec_run(code, consts, 1, e0.push(v)) == (RunOutcome::Done {
                        value: v,
                    }));
                    assert(spec_run(code, consts, 0, e0) == (RunOutcome::Done { value: v }));
                }
            }
            if k0 == crate::scanner::TokenType::Minus && crate::compiler::is_literal_kind(k1)
                && k2 == crate::scanner::TokenType::Eof {
                let v = crate::compiler::spec_literal_value(
                    k1,
                    crate::scanner::spec_token_lexeme(s, p1),
                );
                if k1 == crate::scanner::TokenType::Number {
                    let res = Value::Number(crate::value::spec_num_negate(v->Number_0));
                    assert(code =~= seq![0u8, 0u8, 12u8, 13u8]);
                    assert(consts =~= seq![v]);
                    assert(spec_run(code, consts, 3, e0.push(res)) == (RunOutcome::Done {
                        value: res,
                    }));
                    assert(e0.push(v).drop_last() =~= e0);
                    assert(spec_run(code, consts, 2, e0.push(v)) == (RunOutcome::Done {
                        value: res,
                    }));
                    assert(spec_run(code, consts, 0, e0) == (RunOutcome::Done { value: res }));
                } else {
                    let b = crate::chunk::spec_op_byte(crate::compiler::spec_literal_op(k1));
                    assert(code =~= seq![b, 12u8, 13u8]);
                    crate::chunk::lemma_op_byte_round_trip(crate::compiler::spec_literal_op(k1));
                    assert(spec_run(code, consts, 1, e0.push(v)) == (RunOutcome::TypeError {
                        unary: true,
                        at: 1,
                    }));
                    assert(spec_run(code, consts, 0, e0) == (RunOutcome::TypeError {
                        unary: true,
                        at: 1,
                    }));
                }
            }
            if k0 == crate::scanner::TokenType::Number && crate::compiler::spec_infix_of(k1)
                is Some && crate::compiler::is_literal_kind(k2) && spec_token_kind(s, p3)
                == crate::scanner::TokenType::Eof {
                let x = crate::value::number_value_bits(crate::scanner::spec_token_lexeme(s, 0));
                let ob = crate::chunk::spec_op_byte(crate::compiler::spec_binary_op(k1));
                crate::chunk::lemma_op_byte_round_trip(crate::compiler::spec_binary_op(k1));
                if k2 == crate::scanner::TokenType::Number {
                    let y = crate::value::number_value_bits(
                        crate::scanner::spec_token_lexeme(s, p2),
                    );
                    let res = Value::Number(crate::compiler::spec_arith_bits(k1, x, y));
                    assert(code =~= seq![0u8, 0u8, 0u8, 1u8, ob, 13u8]);
                    assert(consts =~= seq![Value::Number(x), Value::Number(y)]);
                    assert(spec_run(code, consts, 5, e0.push(res)) == (RunOutcome::Done {
                        value: res,
                    }));
                    assert(e0.push(Value::Number(x)).push(Value::Number(y)).drop_last() =~= e0.push(
                        Value::Number(x),
                    ));
                    assert(e0.push(Value::Number(x)).drop_last() =~= e0);
                    assert(e0.push(Value::Number(x)).push(Value::Number(y)).drop_last().drop_last()
                        =~= e0);
                    assert(spec_run(code, consts, 4, e0.push(Value::Number(x)).push(
                        Value::Number(y),
                    )) == (RunOutcome::Done { value: res }));
                    assert(spec_run(code, consts, 2, e0.push(Value::Number(x)))
                        == (RunOutcome::Done { value: res }));
                    assert(spec_run(code, consts, 0, e0) == (RunOutcome::Done { value: res }));
                } else {
                    let b2 = crate::chunk::spec_op_byte(crate::compiler::spec_literal_op(k2));
                    let v2 = crate::compiler::spec_literal_value(
                        k2,
                        crate::scanner::spec_token_lexeme(s, p2),
                    );
                    crate::chunk::lemma_op_byte_round_trip(crate::compiler::spec_literal_op(k2));
                    assert(code =~= seq![0u8, 0u8, b2, ob, 13u8]);
                    assert(consts =~= seq![Value::Number(x)]);
                    assert(spec_run(code, consts, 3, e0.push(Value::Number(x)).push(v2))
                        == (RunOutcome::TypeError { unary: false, at: 3 }));
                    assert(spec_run(code, consts, 2, e0.push(Value::Number(x)))
                        == (RunOutcome::TypeError { unary: false, at: 3 }));
                    assert(spec_run(code, consts, 0, e0) == (RunOutcome::TypeError {
                        unary: false,
                        at: 3,
                    }));
                }
            }
        }
        r
    }

    /// Executes a ready chunk from its first instruction and returns what
    /// `spec_run` denotes: the value the final `Return` pops, or the runtime
    /// error. The machine never underflows its stack, never reads outside
    /// the chunk, and never meets an unknown opcode.
    fn run(&mut self, chunk: Chunk) -> (r: InterpretResult<Value>)
        requires
            chunk_ready(&chunk),
            old(self).stack_view().len() == 0,
            old(self).ip_spec() == 0,
        ensures
            final(self).compile_diag_spec() == old(self).compile_diag_spec(),
            final(self).chunk_spec() == Some(chunk),
            !(spec_run(chunk.code(), chunk.constants(), 0, Seq::<Value>::empty())
                is Stuck),
            ({
                let o = spec_run(chunk.code(), chunk.constants(), 0, Seq::<Value>::empty());
                match o {
                    RunOutcome::Done { value } => {
                        &&& r == Ok::<Value, InterpretError>(value)
                        &&& final(self).stack_view().len() == 0
                        &&& final(self).runtime_diag_spec() == old(self).runtime_diag_spec()
                    },
                    RunOutcome::TypeError { unary, at } => {
                        &&& r == Err::<Value, InterpretError>(InterpretError::RuntimeError)
                        &&& final(self).stack_view().len() == 0
                        &&& 0 <= at < chunk.line_table().len()
                        &&& final(self).runtime_diag_spec() matches Some(d) && d.line
                            == chunk.line_table()[at] && d.message@ == (if unary {
                            "Operand must be a number."@
                        } else {
                            "Operands must be numbers."@
                        })
                    },
                    RunOutcome::Stuck => false,
                }
            }),
    {
        let ghost code = chunk.code();
        let ghost consts = chunk.constants();
        let ghost n = consts.len() as int;
        let ghost end = code.len() - 1;
        proof {
            assert(self.stack_view() =~= Seq::<Value>::empty());
        }
        loop
            invariant
                chunk_ready(&chunk),
                code == chunk.code(),
                consts == chunk.constants(),
                n == consts.len() as int,
                end == code.len() - 1,
                0 <= self.ip_spec() <= end,
                seg_wf(code, n, self.ip_spec(), end, self.stack_view().len() as int, 1),
                seg_wf(code, n, 0, self.ip_spec(), 0, self.stack_view().len() as int),
                spec_run(code, consts, self.ip_spec(), self.stack_view()) == spec_run(
                    code,
                    consts,
                    0,
                    Seq::<Value>::empty(),
                ),
                self.compile_diag_spec() == old(self).compile_diag_spec(),
                self.runtime_diag_spec() == old(self).runtime_diag_spec(),
            decreases code.len() - self.ip_spec(),
        {
            let ghost ip0 = self.ip_spec();
            let ghost stack0 = self.stack_view();
            let ghost d0 = stack0.len() as int;
            let instruction = self.read_byte(&chunk);
            match OpCode::from_byte(instruction) {
                OpCode::Return => {
                    proof {
                        if ip0 < end {
                            assert(false);
                        }
                        assert(d0 == 1);
                    }
                    let v = self.stack.pop().unwrap();
                    self.load_chunk(chunk);
                    return Ok(v);
                },
                OpCode::Constant => {
                    let constant = self.read_constant(&chunk);
                    self.stack.push(constant);
                    proof {
                        assert(seg_wf(code, n, ip0, ip0 + 2, d0, d0 + 1)) by {
                            assert(seg_wf(code, n, ip0 + 2, ip0 + 2, d0 + 1, d0 + 1));
                        }
                        lemma_seg_wf_concat(code, n, 0, ip0, ip0 + 2, 0, d0, d0 + 1);
                    }
                },
                OpCode::Nil => {
                    self.stack.push(Value::Nil);
                    proof {
                        assert(seg_wf(code, n, ip0, ip0 + 1, d0, d0 + 1)) by {
                            assert(seg_wf(code, n, ip0 + 1, ip0 + 1, d0 + 1, d0 + 1));
                        }
                        lemma_seg_wf_concat(code, n, 0, ip0, ip0 + 1, 0, d0, d0 + 1);
                    }
                },
                OpCode::True => {
                    self.stack.push(Value::Bool(true));
                    proof {
                        assert(seg_wf(code, n, ip0, ip0 + 1, d0, d0 + 1)) by {
                            assert(seg_wf(code, n, ip0 + 1, ip0 + 1, d0 + 1, d0 + 1));
                        }
                        lemma_seg_wf_concat(code, n, 0, ip0, ip0 + 1, 0, d0, d0 + 1);
                    }
                },
                OpCode::False => {
                    self.stack.push(Value::Bool(false));
                    proof {
                        assert(seg_wf(code, n, ip0, ip0 + 1, d0, d0 + 1)) by {
                            assert(seg_wf(code, n, ip0 + 1, ip0 + 1, d0 + 1, d0 + 1));
                        }
                        lemma_seg_wf_concat(code, n, 0, ip0, ip0 + 1, 0, d0, d0 + 1);
                    }
                },
                OpCode::Equal => {
                    let b = self.stack.pop().unwrap();
                    let a = self.stack.pop().unwrap();
                    self.stack.push(Value::Bool(values_equal(a, b)));
                    proof {
                        assert(seg_wf(code, n, ip0, ip0 + 1, d0, d0 - 1)) by {
                            assert(seg_wf(code, n, ip0 + 1, ip0 + 1, d0 - 1, d0 - 1));
                        }
                        lemma_seg_wf_concat(code, n, 0, ip0, ip0 + 1, 0, d0, d0 - 1);
                    }
                },
                OpCode::Not => {
                    let value = self.stack.pop().unwrap();
                    self.stack.push(Value::Bool(value.is_falsey()));
                    proof {
                        assert(seg_wf(code, n, ip0, ip0 + 1, d0, d0)) by {
                            assert(seg_wf(code, n, ip0 + 1, ip0 + 1, d0, d0));
                        }
                        lemma_seg_wf_concat(code, n, 0, ip0, ip0 + 1, 0, d0, d0);
                    }
                },
                OpCode::Negate => {
                    match self.peek(0) {
                        Value::Number(v) => {
                            self.stack.pop().unwrap();
                            self.stack.push(Value::Number(num_negate(v)));
                            proof {
                                assert(seg_wf(code, n, ip0, ip0 + 1, d0, d0)) by {
                                    assert(seg_wf(code, n, ip0 + 1, ip0 + 1, d0, d0));
                                }
                                lemma_seg_wf_concat(code, n, 0, ip0, ip0 + 1, 0, d0, d0);
                            }
                        },
                        _ => {
                            let line = chunk.get_line(self.ip - 1);
                            self.runtime_error("Operand must be a number.", line);
                            self.load_chunk(chunk);
                            return Err(InterpretError::RuntimeError);
                        },
                    }
                },
                OpCode::Greater => {
                    match (self.peek(0), self.peek(1)) {
                        (Value::Number(y), Value::Number(x)) => {
                            self.stack.pop().unwrap();
                            self.stack.pop().unwrap();
                            self.stack.push(Value::Bool(num_lt(y, x)));
                            proof {
                                assert(seg_wf(code, n, ip0, ip0 + 1, d0, d0 - 1)) by {
                                    assert(seg_wf(code, n, ip0 + 1, ip0 + 1, d0 - 1, d0 - 1));
                                }
                                lemma_seg_wf_concat(code, n, 0, ip0, ip0 + 1, 0, d0, d0 - 1);
                            }
                        },
                        _ => {
                            let line = chunk.get_line(self.ip - 1);
                            self.runtime_error("Operands must be numbers.", line);
                            self.load_chunk(chunk);
                            return Err(InterpretError::RuntimeError);
                        },
                    }
                },
                OpCode::Less => {
                    match (self.peek(0), self.peek(1)) {
                        (Value::Number(y), Value::Number(x)) => {
                            self.stack.pop().unwrap();
                            self.stack.pop().unwrap();
                            self.stack.push(Value::Bool(num_lt(x, y)));
                            proof {
                                assert(seg_wf(code, n, ip0, ip0 + 1, d0, d0 - 1)) by {
                                    assert(seg_wf(code, n, ip0 + 1, ip0 + 1, d0 - 1, d0 - 1));
                                }
                                lemma_seg_wf_concat(code, n, 0, ip0, ip0 + 1, 0, d0, d0 - 1);
                            }
                        },
                        _ => {
                            let line = chunk.get_line(self.ip - 1);
                            self.runtime_error("Operands must be numbers.", line);
                            self.load_chunk(chunk);
                            return Err(InterpretError::RuntimeError);
                        },
                    }
                },
                OpCode::Add => {
                    match (self.peek(0), self.peek(1)) {
                        (Value::Number(y), Value::Number(x)) => {
                            self.stack.pop().unwrap();
                            self.stack.pop().unwrap();
                            self.stack.push(Value::Number(num_add(x, y)));
                            proof {
                                assert(seg_wf(code, n, ip0, ip0 + 1, d0, d0 - 1)) by {
                                    assert(seg_wf(code, n, ip0 + 1, ip0 + 1, d0 - 1, d0 - 1));
                                }
                                lemma_seg_wf_concat(code, n, 0, ip0, ip0 + 1, 0, d0, d0 - 1);
                            }
                        },
                        _ => {
                            let line = chunk.get_line(self.ip - 1);
                            self.runtime_error("Operands must be numbers.", line);
                            self.load_chunk(chunk);
                            return Err(InterpretError::RuntimeError);
                        },
                    }
                },
                OpCode::Subtract => {
                    match (self.peek(0), self.peek(1)) {
                        (Value::Number(y), Value::Number(x)) => {
                            self.stack.pop().unwrap();
                            self.stack.pop().unwrap();
                            self.stack.push(Value::Number(num_sub(x, y)));
                            proof {
                                assert(seg_wf(code, n, ip0, ip0 + 1, d0, d0 - 1)) by {
                                    assert(seg_wf(code, n, ip0 + 1, ip0 + 1, d0 - 1, d0 - 1));
                                }
                                lemma_seg_wf_concat(code, n, 0, ip0, ip0 + 1, 0, d0, d0 - 1);
                            }
                        },
                        _ => {
                            let line = chunk.get_line(self.ip - 1);
                            self.runtime_error("Operands must be numbers.", line);
                            self.load_chunk(chunk);
                            return Err(InterpretError::RuntimeError);
                        },
                    }
                },
                OpCode::Multiply => {
                    match (self.peek(0), self.peek(1)) {
                        (Value::Number(y), Value::Number(x)) => {
                            self.stack.pop().unwrap();
                            self.stack.pop().unwrap();
                            self.stack.push(Value::Number(num_mul(x, y)));
                            proof {
                                assert(seg_wf(code, n, ip0, ip0 + 1, d0, d0 - 1)) by {
                                    assert(seg_wf(code, n, ip0 + 1, ip0 + 1, d0 - 1, d0 - 1));
                                }
                                lemma_seg_wf_concat(code, n, 0, ip0, ip0 + 1, 0, d0, d0 - 1);
                            }
                        },
                        _ => {
                            let line = chunk.get_line(self.ip - 1);
                            self.runtime_error("Operands must be numbers.", line);
                            self.load_chunk(chunk);
                            return Err(InterpretError::RuntimeError);
                        },
                    }
                },
                OpCode::Divide => {
                    match (self.peek(0), self.peek(1)) {
                        (Value::Number(y), Value::Number(x)) => {
                            self.stack.pop().unwrap();
                            self.stack.pop().unwrap();
                            self.stack.push(Value::Number(num_div(x, y)));
                            proof {
                                assert(seg_wf(code, n, ip0, ip0 + 1, d0, d0 - 1)) by {
                                    assert(seg_wf(code, n, ip0 + 1, ip0 + 1, d0 - 1, d0 - 1));
                                }
                                lemma_seg_wf_concat(code, n, 0, ip0, ip0 + 1, 0, d0, d0 - 1);
                            }
                        },
                        _ => {
                            let line = chunk.get_line(self.ip - 1);
                            self.runtime_error("Operands must be numbers.", line);
                            self.load_chunk(chunk);
                            return Err(InterpretError::RuntimeError);
                        },
                    }
                },
                OpCode::Unknown => {
                    // A ready chunk decodes to real opcodes everywhere, so
                    // this arm cannot be reached.
                    proof {
                        assert(false);
                    }
                    self.load_chunk(chunk);
                    return Err(InterpretError::RuntimeError);
                },
            }
        }
    }

    /// Stores the chunk that was just executed.
    fn load_chunk(&mut self, chunk: Chunk)
        ensures
            final(self).chunk_spec() == Some(chunk),
            final(self).stack_view() == old(self).stack_view(),
            final(self).compile_diag_spec() == old(self).compile_diag_spec(),
            final(self).runtime_diag_spec() == old(self).runtime_diag_spec(),
    {
        self.chunk = Some(chunk)
    }
}

} // verus!

