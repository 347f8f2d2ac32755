use nablaskk_core::calculator::{next_token, CalcError, CalcToken};

fn chars(s: &str) -> Vec<char> {
    s.chars().collect()
}

fn tokens(s: &str) -> Result<Vec<CalcToken>, CalcError> {
    let input = chars(s);
    let mut pos = 0;
    let mut out = Vec::new();
    loop {
        let (token, next) = next_token(&input, pos)?;
        pos = next;
        if token == CalcToken::Eof {
            return Ok(out);
        }
        out.push(token);
    }
}

#[test]
fn calc_tokens() {
    assert_eq!(
        tokens(" (3+2) * 5.5 ").unwrap(),
        vec![
            CalcToken::Op('('),
            CalcToken::Number("3".to_string()),
            CalcToken::Op('+'),
            CalcToken::Number("2".to_string()),
            CalcToken::Op(')'),
            CalcToken::Op('*'),
            CalcToken::Number("5.5".to_string()),
        ]
    );
    assert_eq!(tokens("4*.3").unwrap()[2], CalcToken::Number(".3".to_string()));
    assert_eq!(tokens("").unwrap(), vec![]);
}

#[test]
fn calc_token_errors() {
    assert_eq!(tokens("a"), Err(CalcError::InvalidCharacter));
    assert_eq!(tokens("1.2.3"), Err(CalcError::InvalidCharacter));
    assert_eq!(tokens("."), Err(CalcError::InvalidCharacter));
    assert_eq!(tokens("1+2a"), Err(CalcError::InvalidCharacter));
}

#[test]
fn calc_error_messages() {
    assert_eq!(CalcError::DivideByZero.message(), "計算エラー:ゼロ除算です");
    assert_eq!(CalcError::InvalidCharacter.message(), "計算エラー:不正な文字です");
    assert_eq!(CalcError::UnbalancedParen.message(), "計算エラー:')'が見つかりませんでした");
    assert_eq!(CalcError::Incomplete.message(), "計算エラー:計算できませんでした");
}
