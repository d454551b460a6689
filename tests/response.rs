use std::fmt;

use nuttyverse_core::response::Error;
use nuttyverse_core::response::Response;

#[derive(Debug)]
struct RowNotFound;

impl fmt::Display for RowNotFound {
    fn fmt(&self, f: &mut fmt::Formatter<'_>) -> fmt::Result {
        f.write_str("No rows returned by a query that expected to return at least one row")
    }
}

impl std::error::Error for RowNotFound {}

#[derive(Debug)]
struct DatabaseQueryError {
    source: RowNotFound,
}

impl fmt::Display for DatabaseQueryError {
    fn fmt(&self, f: &mut fmt::Formatter<'_>) -> fmt::Result {
        f.write_str(&format!("Database query failed: {}", self.source))
    }
}

impl std::error::Error for DatabaseQueryError {
    fn source(&self) -> Option<&(dyn std::error::Error + 'static)> {
        Some(&self.source)
    }
}

#[derive(Debug)]
struct ArticleNotFoundError {
    slug: String,
}

impl fmt::Display for ArticleNotFoundError {
    fn fmt(&self, f: &mut fmt::Formatter<'_>) -> fmt::Result {
        f.write_str(&format!("Article with slug '{}' not found", self.slug))
    }
}

impl std::error::Error for ArticleNotFoundError {}

#[test]
fn test_error_from_simple_error() {
    let article_error = ArticleNotFoundError { slug: "getting-started".to_string() };

    let error = Error::from_error(&article_error);

    assert_eq!(error.code, Some("ArticleNotFoundError".to_string()));
    assert_eq!(error.trace.first(), Some(&"ArticleNotFoundError".to_string()));
    assert_eq!(
        error.message,
        Some("Article with slug 'getting-started' not found".to_string())
    );
    assert_eq!(error.summary, None);
}

#[test]
fn test_error_from_nested_error() {
    let row_not_found = RowNotFound;
    let db_error = DatabaseQueryError { source: row_not_found };

    let error = Error::from_error(&db_error);

    assert_eq!(error.code, Some("DatabaseQueryError".to_string()));
    assert!(error.trace.len() >= 2, "Error trace should include at least two entries");
    assert_eq!(
        error.message,
        Some("Database query failed: No rows returned by a query that expected to return at least one row".to_string())
    );
}

#[test]
fn test_error_with_summary() {
    let article_error = ArticleNotFoundError { slug: "getting-started".to_string() };

    let error = Error::from_error(&article_error)
        .with_summary("The article you requested does not exist.");

    assert_eq!(
        error.summary,
        Some("The article you requested does not exist.".to_string())
    );
}

#[test]
fn nested_error_trace_names_each_cause() {
    let error = Error::from_error(&DatabaseQueryError { source: RowNotFound });
    assert_eq!(error.trace, vec!["DatabaseQueryError".to_string(), "RowNotFound".to_string()]);
}

#[test]
fn from_parts_takes_leading_words() {
    let causes = vec!["Io(Kind)".to_string(), "Inner { x: 1 }".to_string(), "".to_string()];
    let error = Error::from_parts("Outer(3)", &causes, "boom".to_string());
    assert_eq!(error.code, Some("Outer".to_string()));
    assert_eq!(
        error.trace,
        vec!["Outer".to_string(), "Io".to_string(), "Inner".to_string(), "".to_string()]
    );
    assert_eq!(error.message, Some("boom".to_string()));
    assert_eq!(error.summary, None);
}

#[test]
fn extract_object_and_objects() {
    let single: Response<u32> = Response::Single { data: Some(7) };
    assert_eq!(single.extract_object(), Some(&7));
    assert_eq!(single.extract_objects(), vec![&7]);

    let empty: Response<u32> = Response::Single { data: None };
    assert_eq!(empty.extract_object(), None);
    assert!(empty.extract_objects().is_empty());

    let many: Response<u32> = Response::Multiple { data: vec![1, 2, 3] };
    assert_eq!(many.extract_object(), None);
    assert_eq!(many.extract_objects(), vec![&1, &2, &3]);

    let errors: Response<u32> = Response::Error { errors: vec![] };
    assert_eq!(errors.extract_object(), None);
    assert!(errors.extract_objects().is_empty());
}

#[derive(Debug)]
struct OuterError {
    cause: EnumError,
}

impl fmt::Display for OuterError {
    fn fmt(&self, f: &mut fmt::Formatter<'_>) -> fmt::Result {
        f.write_str(&format!("An OuterError occurred: {}", self.cause))
    }
}

impl std::error::Error for OuterError {
    fn source(&self) -> Option<&(dyn std::error::Error + 'static)> {
        Some(&self.cause)
    }
}

#[derive(Debug)]
enum EnumError {
    Variant { cause: InnerError },
}

impl fmt::Display for EnumError {
    fn fmt(&self, f: &mut fmt::Formatter<'_>) -> fmt::Result {
        match self {
            EnumError::Variant { cause } => {
                f.write_str(&format!("An EnumError message: Variant: {cause}"))
            }
        }
    }
}

impl std::error::Error for EnumError {
    fn source(&self) -> Option<&(dyn std::error::Error + 'static)> {
        match self {
            EnumError::Variant { cause } => Some(cause),
        }
    }
}

#[derive(Debug)]
struct InnerError;

impl fmt::Display for InnerError {
    fn fmt(&self, f: &mut fmt::Formatter<'_>) -> fmt::Result {
        f.write_str("An InnerError occurred")
    }
}

impl std::error::Error for InnerError {}

#[test]
fn test_error_unwinding() {
    let nested_error = OuterError { cause: EnumError::Variant { cause: InnerError } };

    let api_error = Error::from_error(&nested_error).with_summary("An error occurred.");

    assert_eq!(api_error.code, Some("OuterError".to_string()));
    assert_eq!(api_error.summary, Some("An error occurred.".to_string()));
    assert_eq!(
        api_error.trace,
        vec!["OuterError".to_string(), "Variant".to_string(), "InnerError".to_string()]
    );
    assert_eq!(
        api_error.message,
        Some(
            [
                "An OuterError occurred:",
                "An EnumError message: Variant:",
                "An InnerError occurred"
            ]
            .join(" ")
        )
    );
}
