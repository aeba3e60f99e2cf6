# Notes

Everything this project needs is Rust and Verus; there is no model or harness in another
language. This directory is kept for such material.
