//! Tree evaluation as a small-step machine.
//!
//! The machine owns every decision of evaluation: post-order traversal,
//! left-to-right short-circuit error propagation, variable lookup, and the
//! commit of assignments. It never computes with the numeric values
//! themselves: whenever an arithmetic result is needed it hands the operands
//! to its driver as an [`Outcome`] and waits for [`Machine::supply`]. The
//! machine is verified for every value the driver may hand back.

use vstd::prelude::*;
use crate::ast::{BinaryOp, Expr, ExprModel, FunctionKind};
use crate::env::Environment;
use crate::err::{CalcError, CalcErrorModel};

verus! {

/// One pending piece of evaluation work.
pub enum Task {
    /// Evaluate a subtree.
    Eval(Expr),
    /// Combine the two topmost values with a binary operation.
    Apply(BinaryOp),
    /// Apply a built-in function to the topmost value.
    ApplyFunction(FunctionKind),
    /// Bind the topmost value to a name.
    Bind(String),
    /// Emit the topmost value.
    Output,
}

/// Mathematical model of a pending task.
pub enum TaskModel {
    Eval(ExprModel),
    Apply(BinaryOp),
    ApplyFunction(FunctionKind),
    Bind(Seq<char>),
    Output,
}

impl View for Task {
    type V = TaskModel;

    open spec fn view(&self) -> TaskModel {
        match self {
            Task::Eval(e) => TaskModel::Eval(e@),
            Task::Apply(op) => TaskModel::Apply(*op),
            Task::ApplyFunction(f) => TaskModel::ApplyFunction(*f),
            Task::Bind(s) => TaskModel::Bind(s@),
            Task::Output => TaskModel::Output,
        }
    }
}

/// The models of a task list.
pub open spec fn task_models(ts: Seq<Task>) -> Seq<TaskModel> {
    ts.map_values(|t: Task| t@)
}

/// What one step of the machine yields.
pub enum Outcome {
    /// Internal progress; step again.
    Progress,
    /// Evaluation finished with this value.
    Done(u64),
    /// Evaluation failed; the machine halts.
    Failed(CalcError),
    /// The driver must turn this literal text into a value and supply it.
    NeedNumber(String),
    /// The driver must apply the operation to the two values, in this order,
    /// and supply the result.
    NeedBinary(BinaryOp, u64, u64),
    /// The driver must apply the function to the value and supply the result.
    NeedFunction(FunctionKind, u64),
    /// The driver should emit this value; the machine keeps it and goes on.
    Emitted(u64),
}

/// Mathematical model of a step outcome.
pub enum OutcomeModel {
    Progress,
    Done(u64),
    Failed(CalcErrorModel),
    NeedNumber(Seq<char>),
    NeedBinary(BinaryOp, u64, u64),
    NeedFunction(FunctionKind, u64),
    Emitted(u64),
}

impl View for Outcome {
    type V = OutcomeModel;

    open spec fn view(&self) -> OutcomeModel {
        match self {
            Outcome::Progress => OutcomeModel::Progress,
            Outcome::Done(v) => OutcomeModel::Done(*v),
            Outcome::Failed(e) => OutcomeModel::Failed(e@),
            Outcome::NeedNumber(s) => OutcomeModel::NeedNumber(s@),
            Outcome::NeedBinary(op, a, b) => OutcomeModel::NeedBinary(*op, *a, *b),
            Outcome::NeedFunction(f, a) => OutcomeModel::NeedFunction(*f, *a),
            Outcome::Emitted(v) => OutcomeModel::Emitted(*v),
        }
    }
}

/// Mathematical model of the machine.
pub struct MachineModel {
    pub tasks: Seq<TaskModel>,
    pub values: Seq<u64>,
    pub awaiting: bool,
    pub halted: bool,
}

/// The task stack is consistent with having `n` values at hand: working the
/// stack off from the top, every task finds the operands it pops, and exactly
/// one value remains at the end.
pub open spec fn stack_ok(tasks: Seq<TaskModel>, n: nat) -> bool
    decreases tasks.len(),
{
    if tasks.len() == 0 {
        n == 1
    } else {
        match tasks.last() {
            TaskModel::Eval(_) => stack_ok(tasks.drop_last(), n + 1),
            TaskModel::Apply(_) => n >= 2 && stack_ok(tasks.drop_last(), (n - 1) as nat),
            TaskModel::ApplyFunction(_) => n >= 1 && stack_ok(tasks.drop_last(), n),
            TaskModel::Bind(_) => n >= 1 && stack_ok(tasks.drop_last(), n),
            TaskModel::Output => n >= 1 && stack_ok(tasks.drop_last(), n),
        }
    }
}

/// How much work evaluating an expression still takes: enough that every
/// internal transition of the machine strictly decreases the total weight of
/// its task stack.
pub open spec fn expr_weight(e: ExprModel) -> nat
    decreases e,
{
    match e {
        ExprModel::Number(_) => 2,
        ExprModel::Variable(_) => 2,
        ExprModel::Binary(_, l, r) => 2 + expr_weight(*l) + expr_weight(*r),
        ExprModel::Function(_, a) => 2 + expr_weight(*a),
        ExprModel::Print(a) => 2 + expr_weight(*a),
        ExprModel::Assign(_, v) => 2 + expr_weight(*v),
    }
}

/// The work one pending task still takes.
pub open spec fn task_weight(t: TaskModel) -> nat {
    match t {
        TaskModel::Eval(e) => expr_weight(e),
        _ => 1,
    }
}

/// The work the whole task stack still takes.
pub open spec fn tasks_weight(ts: Seq<TaskModel>) -> nat
    decreases ts.len(),
{
    if ts.len() == 0 {
        0
    } else {
        tasks_weight(ts.drop_last()) + task_weight(ts.last())
    }
}

proof fn lemma_tasks_weight_push(ts: Seq<TaskModel>, t: TaskModel)
    ensures
        tasks_weight(ts.push(t)) == tasks_weight(ts) + task_weight(t),
{
    assert(ts.push(t).drop_last() =~= ts);
}

/// The transition relation of the machine: what one step does to the machine
/// state and the environment, and which outcome it reports.
pub open spec fn step_result(pre: MachineModel, env: Map<Seq<char>, u64>) -> (
    MachineModel,
    Map<Seq<char>, u64>,
    OutcomeModel,
) {
    if pre.tasks.len() == 0 {
        (
            (MachineModel { values: pre.values.drop_last(), halted: true, ..pre }),
            env,
            OutcomeModel::Done(pre.values.last()),
        )
    } else {
        let rest = pre.tasks.drop_last();
        match pre.tasks.last() {
            TaskModel::Eval(e) => match e {
                ExprModel::Number(text) => (
                    (MachineModel { tasks: rest, awaiting: true, ..pre }),
                    env,
                    OutcomeModel::NeedNumber(text),
                ),
                ExprModel::Variable(name) => if env.contains_key(name) {
                    (
                        (MachineModel { tasks: rest, values: pre.values.push(env[name]), ..pre }),
                        env,
                        OutcomeModel::Progress,
                    )
                } else {
                    (
                        (MachineModel { tasks: rest, halted: true, ..pre }),
                        env,
                        OutcomeModel::Failed(CalcErrorModel::UnboundVariable(name)),
                    )
                },
                ExprModel::Binary(op, l, r) => (
                    (MachineModel {
                        tasks: rest.push(TaskModel::Apply(op)).push(TaskModel::Eval(*r)).push(
                            TaskModel::Eval(*l),
                        ),
                        ..pre
                    }),
                    env,
                    OutcomeModel::Progress,
                ),
                ExprModel::Function(f, a) => (
                    (MachineModel {
                        tasks: rest.push(TaskModel::ApplyFunction(f)).push(TaskModel::Eval(*a)),
                        ..pre
                    }),
                    env,
                    OutcomeModel::Progress,
                ),
                ExprModel::Print(a) => (
                    (MachineModel {
                        tasks: rest.push(TaskModel::Output).push(TaskModel::Eval(*a)),
                        ..pre
                    }),
                    env,
                    OutcomeModel::Progress,
                ),
                ExprModel::Assign(name, v) => (
                    (MachineModel {
                        tasks: rest.push(TaskModel::Bind(name)).push(TaskModel::Eval(*v)),
                        ..pre
                    }),
                    env,
                    OutcomeModel::Progress,
                ),
            },
            TaskModel::Apply(op) => (
                (MachineModel {
                    tasks: rest,
                    values: pre.values.drop_last().drop_last(),
                    awaiting: true,
                    ..pre
                }),
                env,
                OutcomeModel::NeedBinary(op, pre.values.drop_last().last(), pre.values.last()),
            ),
            TaskModel::ApplyFunction(f) => (
                (MachineModel {
                    tasks: rest,
                    values: pre.values.drop_last(),
                    awaiting: true,
                    ..pre
                }),
                env,
                OutcomeModel::NeedFunction(f, pre.values.last()),
            ),
            TaskModel::Bind(name) => (
                (MachineModel { tasks: rest, ..pre }),
                env.insert(name, pre.values.last()),
                OutcomeModel::Progress,
            ),
            TaskModel::Output => (
                (MachineModel { tasks: rest, ..pre }),
                env,
                OutcomeModel::Emitted(pre.values.last()),
            ),
        }
    }
}

/// The evaluation machine.
pub struct Machine {
    /// Pending work, worked off from the end.
    pub tasks: Vec<Task>,
    /// Values already computed, newest at the end.
    pub values: Vec<u64>,
    /// The machine asked the driver for a value and waits for `supply`.
    pub awaiting: bool,
    /// Evaluation has finished or failed.
    pub halted: bool,
}

impl View for Machine {
    type V = MachineModel;

    open spec fn view(&self) -> MachineModel {
        MachineModel {
            tasks: task_models(self.tasks@),
            values: self.values@,
            awaiting: self.awaiting,
            halted: self.halted,
        }
    }
}

impl Machine {
    /// The machine can always work its stack off to exactly one result.
    pub open spec fn inv(&self) -> bool {
        self@.halted || stack_ok(
            self@.tasks,
            self@.values.len() + if self@.awaiting { 1nat } else { 0nat },
        )
    }

    /// A machine about to evaluate the given expression.
    pub fn new(expr: Expr) -> (r: Machine)
        ensures
            r.inv(),
            r@.tasks == seq![TaskModel::Eval(expr@)],
            r@.values == Seq::<u64>::empty(),
            !r@.awaiting,
            !r@.halted,
    {
        let mut tasks: Vec<Task> = Vec::new();
        tasks.push(Task::Eval(expr));
        let r = Machine { tasks, values: Vec::new(), awaiting: false, halted: false };
        proof {
            assert(r@.tasks =~= seq![TaskModel::Eval(expr@)]);
            assert(r@.tasks.drop_last() =~= Seq::<TaskModel>::empty());
            assert(r@.values =~= Seq::<u64>::empty());
            assert(stack_ok(Seq::<TaskModel>::empty(), 1));
            assert(stack_ok(r@.tasks, 0));
        }
        r
    }

    /// Hands the machine the value it asked for.
    pub fn supply(&mut self, value: u64)
        requires
            old(self).inv(),
            old(self)@.awaiting,
            !old(self)@.halted,
        ensures
            final(self).inv(),
            final(self)@.tasks == old(self)@.tasks,
            final(self)@.values == old(self)@.values.push(value),
            !final(self)@.awaiting,
            !final(self)@.halted,
    {
        self.values.push(value);
        self.awaiting = false;
    }

    /// Performs one step of evaluation, exactly as `step_result` describes.
    pub fn step(&mut self, env: &mut Environment) -> (r: Outcome)
        requires
            old(self).inv(),
            !old(self)@.awaiting,
            !old(self)@.halted,
            old(env).wf(),
        ensures
            final(self).inv(),
            final(env).wf(),
            ({
                let (m2, e2, o) = step_result(old(self)@, old(env)@);
                final(self)@ == m2 && final(env)@ == e2 && r@ == o
            }),
            r@ is Done || r@ is Failed || tasks_weight(final(self)@.tasks) < tasks_weight(
                old(self)@.tasks,
            ),
    {
        let ghost pre = self@;
        let ghost tm = task_models(self.tasks@);
        match self.tasks.pop() {
            None => {
                proof {
                    assert(self@.values.len() == 1);
                }
                match self.values.pop() {
                    Some(v) => {
                        self.halted = true;
                        Outcome::Done(v)
                    }
                    None => {
                        proof {
                            assert(false);
                        }
                        Outcome::Progress
                    }
                }
            }
            Some(task) => {
                proof {
                    assert(tm.last() == task@);
                    assert(task_models(self.tasks@) =~= tm.drop_last());
                    assert(tasks_weight(tm) == tasks_weight(tm.drop_last()) + task_weight(
                        tm.last(),
                    ));
                }
                match task {
                    Task::Eval(e) => match e {
                        Expr::Number(text) => {
                            self.awaiting = true;
                            proof {
                                assert(stack_ok(task_models(self.tasks@), self.values@.len() + 1));
                            }
                            Outcome::NeedNumber(text)
                        }
                        Expr::Variable(name) => match env.get(&name) {
                            Some(v) => {
                                self.values.push(v);
                                proof {
                                    assert(stack_ok(task_models(self.tasks@), self.values@.len()));
                                }
                                Outcome::Progress
                            }
                            None => {
                                self.halted = true;
                                Outcome::Failed(CalcError::UnboundVariable(name))
                            }
                        },
                        Expr::Binary(op, l, r) => {
                            let ghost gl = l@;
                            let ghost gr = r@;
                            self.tasks.push(Task::Apply(op));
                            proof {
                                assert(task_models(self.tasks@) =~= tm.drop_last().push(
                                    TaskModel::Apply(op),
                                ));
                            }
                            self.tasks.push(Task::Eval(*r));
                            proof {
                                assert(task_models(self.tasks@) =~= tm.drop_last().push(
                                    TaskModel::Apply(op),
                                ).push(TaskModel::Eval(gr)));
                            }
                            self.tasks.push(Task::Eval(*l));
                            proof {
                                assert(task_models(self.tasks@) =~= tm.drop_last().push(
                                    TaskModel::Apply(op),
                                ).push(TaskModel::Eval(gr)).push(TaskModel::Eval(gl)));
                                lemma_stack_ok_binary(pre, op, gl, gr);
                                lemma_tasks_weight_push(tm.drop_last(), TaskModel::Apply(op));
                                lemma_tasks_weight_push(
                                    tm.drop_last().push(TaskModel::Apply(op)),
                                    TaskModel::Eval(gr),
                                );
                                lemma_tasks_weight_push(
                                    tm.drop_last().push(TaskModel::Apply(op)).push(
                                        TaskModel::Eval(gr),
                                    ),
                                    TaskModel::Eval(gl),
                                );
                            }
                            Outcome::Progress
                        }
                        Expr::Function(f, a) => {
                            let ghost ga = a@;
                            self.tasks.push(Task::ApplyFunction(f));
                            proof {
                                assert(task_models(self.tasks@) =~= tm.drop_last().push(
                                    TaskModel::ApplyFunction(f),
                                ));
                            }
                            self.tasks.push(Task::Eval(*a));
                            proof {
                                assert(task_models(self.tasks@) =~= tm.drop_last().push(
                                    TaskModel::ApplyFunction(f),
                                ).push(TaskModel::Eval(ga)));
                                assert(stack_ok(tm.drop_last(), self.values@.len() + 1));
                                lemma_stack_ok_chain1(
                                    tm.drop_last(),
                                    self.values@.len(),
                                    TaskModel::ApplyFunction(f),
                                    ga,
                                );
                                lemma_tasks_weight_push(
                                    tm.drop_last(),
                                    TaskModel::ApplyFunction(f),
                                );
                                lemma_tasks_weight_push(
                                    tm.drop_last().push(TaskModel::ApplyFunction(f)),
                                    TaskModel::Eval(ga),
                                );
                            }
                            Outcome::Progress
                        }
                        Expr::Print(a) => {
                            let ghost ga = a@;
                            self.tasks.push(Task::Output);
                            proof {
                                assert(task_models(self.tasks@) =~= tm.drop_last().push(
                                    TaskModel::Output,
                                ));
                            }
                            self.tasks.push(Task::Eval(*a));
                            proof {
                                assert(task_models(self.tasks@) =~= tm.drop_last().push(
                                    TaskModel::Output,
                                ).push(TaskModel::Eval(ga)));
                                assert(stack_ok(tm.drop_last(), self.values@.len() + 1));
                                lemma_stack_ok_chain1(
                                    tm.drop_last(),
                                    self.values@.len(),
                                    TaskModel::Output,
                                    ga,
                                );
                                lemma_tasks_weight_push(tm.drop_last(), TaskModel::Output);
                                lemma_tasks_weight_push(
                                    tm.drop_last().push(TaskModel::Output),
                                    TaskModel::Eval(ga),
                                );
                            }
                            Outcome::Progress
                        }
                        Expr::Assign(name, v) => {
                            let ghost nm = name@;
                            let ghost gv = v@;
                            self.tasks.push(Task::Bind(name));
                            proof {
                                assert(task_models(self.tasks@) =~= tm.drop_last().push(
                                    TaskModel::Bind(nm),
                                ));
                            }
                            self.tasks.push(Task::Eval(*v));
                            proof {
                                assert(task_models(self.tasks@) =~= tm.drop_last().push(
                                    TaskModel::Bind(nm),
                                ).push(TaskModel::Eval(gv)));
                                assert(stack_ok(tm.drop_last(), self.values@.len() + 1));
                                lemma_stack_ok_chain1(
                                    tm.drop_last(),
                                    self.values@.len(),
                                    TaskModel::Bind(nm),
                                    gv,
                                );
                                lemma_tasks_weight_push(tm.drop_last(), TaskModel::Bind(nm));
                                lemma_tasks_weight_push(
                                    tm.drop_last().push(TaskModel::Bind(nm)),
                                    TaskModel::Eval(gv),
                                );
                            }
                            Outcome::Progress
                        }
                    },
                    Task::Apply(op) => {
                        proof {
                            assert(self@.values.len() >= 2);
                        }
                        let b = match self.values.pop() {
                            Some(x) => x,
                            None => {
                                proof {
                                    assert(false);
                                }
                                0
                            }
                        };
                        let a = match self.values.pop() {
                            Some(x) => x,
                            None => {
                                proof {
                                    assert(false);
                                }
                                0
                            }
                        };
                        self.awaiting = true;
                        proof {
                            assert(stack_ok(task_models(self.tasks@), self.values@.len() + 1));
                        }
                        Outcome::NeedBinary(op, a, b)
                    }
                    Task::ApplyFunction(f) => {
                        proof {
                            assert(self@.values.len() >= 1);
                        }
                        let a = match self.values.pop() {
                            Some(x) => x,
                            None => {
                                proof {
                                    assert(false);
                                }
                                0
                            }
                        };
                        self.awaiting = true;
                        proof {
                            assert(stack_ok(task_models(self.tasks@), self.values@.len() + 1));
                        }
                        Outcome::NeedFunction(f, a)
                    }
                    Task::Bind(name) => {
                        proof {
                            assert(self@.values.len() >= 1);
                        }
                        let v = self.values[self.values.len() - 1];
                        env.set(name, v);
                        proof {
                            assert(stack_ok(task_models(self.tasks@), self.values@.len()));
                        }
                        Outcome::Progress
                    }
                    Task::Output => {
                        proof {
                            assert(self@.values.len() >= 1);
                        }
                        let v = self.values[self.values.len() - 1];
                        proof {
                            assert(stack_ok(task_models(self.tasks@), self.values@.len()));
                        }
                        Outcome::Emitted(v)
                    }
                }
            }
        }
    }
}

/// Helper for the binary case of `step`: rebuilding the task stack with the
/// operator and both children keeps it consistent.
proof fn lemma_stack_ok_binary(pre: MachineModel, op: BinaryOp, l: ExprModel, r: ExprModel)
    requires
        pre.tasks.len() > 0,
        stack_ok(pre.tasks, pre.values.len()),
        pre.tasks.last() == TaskModel::Eval(ExprModel::Binary(op, Box::new(l), Box::new(r))),
    ensures
        stack_ok(
            pre.tasks.drop_last().push(TaskModel::Apply(op)).push(TaskModel::Eval(r)).push(
                TaskModel::Eval(l),
            ),
            pre.values.len(),
        ),
{
    let rest = pre.tasks.drop_last();
    let n = pre.values.len();
    let t1 = rest.push(TaskModel::Apply(op));
    let t2 = t1.push(TaskModel::Eval(r));
    let t3 = t2.push(TaskModel::Eval(l));
    assert(t3.drop_last() =~= t2);
    assert(t2.drop_last() =~= t1);
    assert(t1.drop_last() =~= rest);
    assert(stack_ok(rest, n + 1));
    assert(stack_ok(t1, n + 2));
    assert(stack_ok(t2, n + 1));
    assert(stack_ok(t3, n));
}

/// Helper for the one-operand composite cases of `step`: pushing a
/// one-consumer task and the child to evaluate keeps the stack consistent.
proof fn lemma_stack_ok_chain1(rest: Seq<TaskModel>, n: nat, m: TaskModel, a: ExprModel)
    requires
        stack_ok(rest, n + 1),
        m is ApplyFunction || m is Bind || m is Output,
    ensures
        stack_ok(rest.push(m).push(TaskModel::Eval(a)), n),
{
    let t1 = rest.push(m);
    let t2 = t1.push(TaskModel::Eval(a));
    assert(t2.drop_last() =~= t1);
    assert(t1.drop_last() =~= rest);
    assert(stack_ok(t1, n + 1));
    assert(stack_ok(t2, n));
}

/// Law: a single evaluation step never drops a binding, and changes the value
/// of a binding only when the task it works off is an assignment commit to
/// that very name. In particular, looking a variable up never mutates the
/// environment, and an evaluation that never assigns a name leaves that
/// name's value exactly as it was.
pub proof fn lemma_step_preserves_other_bindings(
    pre: MachineModel,
    env: Map<Seq<char>, u64>,
    key: Seq<char>,
)
    requires
        env.contains_key(key),
    ensures
        step_result(pre, env).1.contains_key(key),
        (pre.tasks.len() == 0 || pre.tasks.last() != TaskModel::Bind(key))
            ==> step_result(pre, env).1[key] == env[key],
{
}

} // verus!
