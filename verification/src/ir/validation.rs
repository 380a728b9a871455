//! Validation of genome programs.

use vstd::prelude::*;
use crate::error::{Error, ValidationError};
use crate::ir::program::{Function, FunctionModel, Program, first_named};

verus! {

/// The first defect of a function, if any: no blocks at all, or an empty
/// block that is not the last one.
pub open spec fn function_defect(f: FunctionModel, idx: int) -> Option<ValidationError> {
    if f.blocks.len() == 0 {
        Some(ValidationError::NoBlocks { function: idx as usize })
    } else {
        match first_empty_block(f.blocks, 0) {
            Some(b) => Some(ValidationError::EmptyBlock { function: idx as usize, block: b as usize }),
            None => None,
        }
    }
}

/// The first empty block at or after `from`, the last block excepted.
pub open spec fn first_empty_block(blocks: Seq<Seq<crate::ir::instruction::InstructionModel>>, from: int) -> Option<int>
    decreases blocks.len() - from,
{
    if from < 0 || from >= blocks.len() - 1 {
        None
    } else if blocks[from].len() == 0 {
        Some(from)
    } else {
        first_empty_block(blocks, from + 1)
    }
}

/// The first defect among the functions at or after `from`.
pub open spec fn first_program_defect(fs: Seq<FunctionModel>, from: int) -> Option<ValidationError>
    decreases fs.len() - from,
{
    if from < 0 || from >= fs.len() {
        None
    } else {
        match function_defect(fs[from], from) {
            Some(e) => Some(e),
            None => first_program_defect(fs, from + 1),
        }
    }
}

/// What validation decides for a program.
pub open spec fn spec_validate(fs: Seq<FunctionModel>) -> Result<(), Error> {
    if first_named(fs, "init"@) is None {
        Err(Error::Validation(ValidationError::MissingInit))
    } else if first_named(fs, "step"@) is None {
        Err(Error::Validation(ValidationError::MissingStep))
    } else {
        match first_program_defect(fs, 0) {
            Some(e) => Err(Error::Validation(e)),
            None => Ok(()),
        }
    }
}

/// Validate that a program is well-formed: it has an `init` and a `step`
/// function, every function has a block, and only a function's last block
/// may be empty.
pub fn validate_program(program: &Program) -> (r: Result<(), Error>)
    ensures
        r == spec_validate(program@.functions),
{
    if program.get_init_function().is_none() {
        return Err(Error::Validation(ValidationError::MissingInit));
    }
    if program.get_step_function().is_none() {
        return Err(Error::Validation(ValidationError::MissingStep));
    }
    let mut idx: usize = 0;
    while idx < program.functions.len()
        invariant
            idx <= program.functions@.len(),
            first_named(program@.functions, "init"@) is Some,
            first_named(program@.functions, "step"@) is Some,
            first_program_defect(program@.functions, 0) == first_program_defect(program@.functions, idx as int),
        decreases program.functions@.len() - idx,
    {
        assert(program@.functions[idx as int] == program.functions@[idx as int]@);
        match validate_function(&program.functions[idx], idx) {
            Ok(()) => {},
            Err(e) => {
                proof {
                    let fs = program@.functions;
                    assert(function_defect(fs[idx as int], idx as int) is Some);
                    assert(first_program_defect(fs, idx as int) == function_defect(fs[idx as int], idx as int));
                    assert(first_named(fs, "init"@) is Some);
                    assert(first_named(fs, "step"@) is Some);
                }
                return Err(e);
            },
        }
        idx += 1;
    }
    Ok(())
}

/// Validate one function of a program, at index `idx`.
pub fn validate_function(func: &Function, idx: usize) -> (r: Result<(), Error>)
    ensures
        r == match function_defect(func@, idx as int) {
            Some(e) => Err(Error::Validation(e)),
            None => Ok::<(), Error>(()),
        },
{
    if func.blocks.len() == 0 {
        return Err(Error::Validation(ValidationError::NoBlocks { function: idx }));
    }
    let mut block_idx: usize = 0;
    let last = func.blocks.len() - 1;
    while block_idx < last
        invariant
            last == func@.blocks.len() - 1,
            block_idx <= last,
            first_empty_block(func@.blocks, 0) == first_empty_block(func@.blocks, block_idx as int),
        decreases last - block_idx,
    {
        if func.blocks[block_idx].is_empty() {
            return Err(Error::Validation(ValidationError::EmptyBlock { function: idx, block: block_idx }));
        }
        block_idx += 1;
    }
    Ok(())
}

} // verus!
