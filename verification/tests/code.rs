use minivm::code::{Block, CompiledCode, Opcode};
use minivm::text::{integer_text, natural_text};

fn name(s: &str) -> String {
    String::from(s)
}

#[test]
fn new_code_is_empty() {
    let code = CompiledCode::new();
    assert!(code.ops.is_empty());
    assert!(code.lits.is_empty());
    assert!(code.params.is_empty());
}

#[test]
fn get_lit_reads_the_constant_pool() {
    let mut code = CompiledCode::new();
    code.lits = vec![7, 9];
    assert_eq!(code.get_lit(0), Some(&7));
    assert_eq!(code.get_lit(1), Some(&9));
    assert_eq!(code.get_lit(2), None);
    assert_eq!(CompiledCode::new().get_lit(0), None);
}

#[test]
fn a_new_block_captures_no_environment() {
    let mut code = CompiledCode::new();
    code.ops = vec![Opcode::Nop];
    let block = Block::new(code.clone());
    assert_eq!(block.code, code);
    assert_eq!(block.env, None);
}

#[test]
fn cloned_code_equals_its_source() {
    let mut code = CompiledCode::new();
    code.ops = vec![Opcode::LoadTemp(name("x")), Opcode::Jump(-2), Opcode::Apply(3)];
    code.lits = vec![4, 5];
    code.params = vec![name("a"), name("b")];
    assert_eq!(code.clone(), code);
    let block = Block { code, env: Some(2) };
    assert_eq!(block.clone(), block);
}

#[test]
fn every_opcode_clones_to_itself() {
    let ops = vec![
        Opcode::Nop,
        Opcode::LoadTemp(name("t")),
        Opcode::LoadLit(1),
        Opcode::LoadUnit,
        Opcode::LoadTrue,
        Opcode::LoadFalse,
        Opcode::LoadInt(-1),
        Opcode::LoadPrim(name("p")),
        Opcode::StorePop(name("s")),
        Opcode::Pop,
        Opcode::Return,
        Opcode::LoopHead,
        Opcode::Jump(2),
        Opcode::BranchTrue(3),
        Opcode::BranchFalse(4),
        Opcode::Apply(5),
        Opcode::MakeBlock,
        Opcode::Not,
        Opcode::Eq,
        Opcode::Neq,
        Opcode::Lt,
        Opcode::Le,
        Opcode::Gt,
        Opcode::Ge,
    ];
    for op in &ops {
        assert_eq!(&op.clone(), op);
    }
}

#[test]
fn each_opcode_renders_to_its_one_line_form() {
    assert_eq!(Opcode::Nop.to_string(), "nop");
    assert_eq!(Opcode::LoadTemp(name("x")).to_string(), "load temp #x");
    assert_eq!(Opcode::LoadLit(12).to_string(), "load literal #12");
    assert_eq!(Opcode::LoadUnit.to_string(), "load unit");
    assert_eq!(Opcode::LoadTrue.to_string(), "load true");
    assert_eq!(Opcode::LoadFalse.to_string(), "load false");
    assert_eq!(Opcode::LoadInt(-42).to_string(), "load int -42");
    assert_eq!(Opcode::LoadInt(7).to_string(), "load int 7");
    assert_eq!(Opcode::LoadPrim(name("double")).to_string(), "load primitive #double");
    assert_eq!(Opcode::StorePop(name("y")).to_string(), "store #y; pop");
    assert_eq!(Opcode::Pop.to_string(), "pop");
    assert_eq!(Opcode::Return.to_string(), "return");
    assert_eq!(Opcode::LoopHead.to_string(), "loophead");
    assert_eq!(Opcode::Jump(-3).to_string(), "jump -3");
    assert_eq!(Opcode::Jump(300).to_string(), "jump 300");
    assert_eq!(Opcode::BranchTrue(65535).to_string(), "branch true 65535");
    assert_eq!(Opcode::BranchFalse(0).to_string(), "branch false 0");
    assert_eq!(Opcode::Apply(255).to_string(), "apply 255");
    assert_eq!(Opcode::MakeBlock.to_string(), "make block");
    assert_eq!(Opcode::Not.to_string(), "not");
    assert_eq!(Opcode::Eq.to_string(), "==");
    assert_eq!(Opcode::Neq.to_string(), "!=");
    assert_eq!(Opcode::Lt.to_string(), "<");
    assert_eq!(Opcode::Le.to_string(), "<=");
    assert_eq!(Opcode::Gt.to_string(), ">");
    assert_eq!(Opcode::Ge.to_string(), ">=");
}

#[test]
fn an_empty_name_renders_as_nothing() {
    assert_eq!(Opcode::LoadTemp(name("")).to_string(), "load temp #");
    assert_eq!(Opcode::StorePop(name("")).to_string(), "store #; pop");
}

#[test]
fn the_listing_numbers_the_instructions_from_one() {
    let mut code = CompiledCode::new();
    code.ops = vec![
        Opcode::Nop,
        Opcode::LoadUnit,
        Opcode::LoadPrim(name("hello")),
        Opcode::Apply(0),
    ];
    assert_eq!(
        code.to_string(),
        "opcodes:\n    1: nop\n    2: load unit\n    3: load primitive #hello\n    4: apply 0\n"
    );
}

#[test]
fn the_listing_of_empty_code_is_the_heading() {
    assert_eq!(CompiledCode::new().to_string(), "opcodes:\n");
}

#[test]
fn the_listing_counts_past_nine() {
    let mut code = CompiledCode::new();
    for _ in 0..11 {
        code.ops.push(Opcode::Pop);
    }
    let text = code.to_string();
    assert!(text.ends_with("    9: pop\n    10: pop\n    11: pop\n"));
    assert_eq!(text.lines().count(), 12);
}

#[test]
fn natural_numbers_render_in_decimal() {
    assert_eq!(natural_text(0), "0");
    assert_eq!(natural_text(9), "9");
    assert_eq!(natural_text(10), "10");
    assert_eq!(natural_text(1234567890), "1234567890");
    assert_eq!(natural_text(u64::MAX), "18446744073709551615");
}

#[test]
fn integers_render_in_decimal_with_their_sign() {
    assert_eq!(integer_text(0), "0");
    assert_eq!(integer_text(-1), "-1");
    assert_eq!(integer_text(105), "105");
    assert_eq!(integer_text(-9000), "-9000");
    assert_eq!(integer_text(i64::MAX), "9223372036854775807");
    assert_eq!(integer_text(i64::MIN), "-9223372036854775808");
}
