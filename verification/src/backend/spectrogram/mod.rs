//! Spectral analysis: the framing of samples into FFT windows.
pub mod fft;
