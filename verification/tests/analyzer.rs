use std::path::Path;

use astral::analyzer::{AnalysisResult, AnalyzerMetadata, LanguageAnalyzer};
use astral::error::AstralError;

struct FixtureAnalyzer;

impl LanguageAnalyzer for FixtureAnalyzer {
    fn supports(&self, path: &str) -> bool {
        Path::new(path).extension().is_some_and(|extension| extension == "fixture")
    }

    fn analyze(&self, path: &str, _source: &str) -> Result<AnalysisResult, AstralError> {
        Ok(AnalysisResult {
            path: path.to_owned(),
            analyzer: AnalyzerMetadata { name: "fixture".to_owned(), version: "0.1".to_owned() },
            symbols: Vec::new(),
            references: Vec::new(),
            imports: Vec::new(),
            exports: Vec::new(),
            calls: Vec::new(),
            diagnostics: Vec::new(),
        })
    }
}

#[test]
fn analyzer_contract_uses_normalized_owned_data() {
    let analyzer = FixtureAnalyzer;
    let result = analyzer.analyze("example.fixture", "source").expect("analysis result");

    assert!(analyzer.supports("example.fixture"));
    assert_eq!(result.analyzer.name, "fixture");
    assert!(result.symbols.is_empty());
}
