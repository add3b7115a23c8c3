# basic_compiler

A compiler for a small calculator BASIC dialect, verified with Verus.

- `src/lexer.rs` turns source text into tokens (`Lexer::lex`, `Lexer::try_lex`);
  its contract is `lex_spec`, a statement of the tokens over the characters of
  the input, including the byte spans of the tokens.
- `src/parse.rs` is a recursive-descent parser (`Parser::parse`,
  `Parser::try_parse`) whose contract is `parse_spec` over the tokens.
- `src/codegen/x86_64.rs` renders a program as x86-64 assembly text
  (`CodeGeneratorX86_64::gen_asm`); `src/codegen/listing.rs` states that text
  line by line.
- `src/ast.rs`, `src/token.rs`, `src/span.rs`, `src/types.rs` hold the data types,
  `src/text.rs` the character and decimal helpers.
- `app/main.rs` reads the source file, turns number literals into `f32` values
  for printing, and writes the assembly file.

Number literals are carried as the text that denotes them; the program turns
that text into the `f32` value it prints.
